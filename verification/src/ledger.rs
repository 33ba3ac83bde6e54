//! The holder ledger: per-holder token-account records and the operations
//! that move tokens into them.

use vstd::prelude::*;

use crate::error::TodoError;
use crate::registry::increase_supply;
use crate::registry::supply_increased;
use crate::registry::Mint;
use crate::registry::Registry;
use crate::store::find_entry;
use crate::store::lemma_lookup_push;
use crate::store::lemma_lookup_update;
use crate::store::lookup;
use crate::store::Entry;
use crate::Identity;

verus! {

/// One holder's balance record for one mint.
#[derive(Clone, Copy, Debug, PartialEq, Eq, Structural)]
pub struct HolderAccount {
    /// The holder who controls spend rights.
    pub owner: Identity,
    /// Back-reference to the key of the owning mint record. It never
    /// implies ownership of that record.
    pub mint_ref: u64,
    /// Tokens currently held.
    pub balance: u64,
    /// Set by the freeze authority; a frozen account rejects deposits.
    pub frozen: bool,
}

/// The record a freshly created holder account holds: an empty, unfrozen
/// balance for `owner` under the mint stored at `mint_ref`.
pub open spec fn fresh_holder(owner: Identity, mint_ref: u64) -> HolderAccount {
    HolderAccount { owner, mint_ref, balance: 0, frozen: false }
}

/// `a` with its balance raised by `amount` and every other field
/// unchanged. Meaningful only when `a.balance + amount` fits in a `u64`.
pub open spec fn balance_increased(a: HolderAccount, amount: u64) -> HolderAccount {
    HolderAccount { balance: (a.balance + amount) as u64, ..a }
}

/// When `mint_to` is owed success: the account belongs to the mint, is
/// not frozen, the caller is the mint authority, and neither the supply
/// nor the balance increment overflows.
pub open spec fn mint_to_ok(
    m: Mint,
    mint_key: u64,
    a: HolderAccount,
    caller: Identity,
    amount: u64,
) -> bool {
    &&& a.mint_ref == mint_key
    &&& !a.frozen
    &&& m.mint_authority == Some(caller)
    &&& m.supply + amount <= u64::MAX
    &&& a.balance + amount <= u64::MAX
}

/// The kind with which `mint_to` fails, checked in this order: a
/// cross-mint mismatch, then a frozen target, then a caller who is not
/// the mint authority, then an overflowing increment.
pub open spec fn mint_to_error(
    m: Mint,
    mint_key: u64,
    a: HolderAccount,
    caller: Identity,
) -> TodoError {
    if a.mint_ref != mint_key {
        TodoError::NotAllowed
    } else if a.frozen {
        TodoError::FrozenAccount
    } else if m.mint_authority != Some(caller) {
        TodoError::Unauthorized
    } else {
        TodoError::MathOverflow
    }
}

/// Mint `amount` new tokens of `mint` (stored at `mint_key`) into
/// `account` on behalf of `caller`.
///
/// Both legs are validated before either record is written: on success
/// the supply and the balance rise together by `amount`; on any failure
/// both records are left exactly as they were, so no supply increment is
/// ever orphaned by a balance overflow.
pub fn mint_to(
    mint: &mut Mint,
    mint_key: u64,
    account: &mut HolderAccount,
    caller: Identity,
    amount: u64,
) -> (r: Result<(), TodoError>)
    ensures
        mint_to_ok(*old(mint), mint_key, *old(account), caller, amount) ==> (r == Ok::<
            (),
            TodoError,
        >(()) && *final(mint) == supply_increased(*old(mint), amount) && *final(account)
            == balance_increased(*old(account), amount)),
        !mint_to_ok(*old(mint), mint_key, *old(account), caller, amount) ==> (r == Err::<
            (),
            TodoError,
        >(mint_to_error(*old(mint), mint_key, *old(account), caller)) && *final(mint) == *old(mint)
            && *final(account) == *old(account)),
{
    if account.mint_ref != mint_key {
        return Err(TodoError::NotAllowed);
    }
    if account.frozen {
        return Err(TodoError::FrozenAccount);
    }
    let authorized = match mint.mint_authority {
        Some(a) => a.id == caller.id,
        None => false,
    };
    if !authorized {
        return Err(TodoError::Unauthorized);
    }
    let new_balance = match account.balance.checked_add(amount) {
        Some(b) => b,
        None => {
            return Err(TodoError::MathOverflow);
        },
    };
    match increase_supply(mint, caller, amount) {
        Ok(()) => {
            account.balance = new_balance;
            Ok(())
        },
        Err(e) => Err(e),
    }
}

/// Mark `account` (a record of the mint stored at `mint_key`) frozen on
/// behalf of `caller`.
///
/// Fails with `NotAllowed` if the account does not reference the mint,
/// and with `Unauthorized` unless `caller` is the freeze authority; on
/// failure the account is left exactly as it was. Freezing an already
/// frozen account succeeds and changes nothing.
pub fn freeze_account(mint: &Mint, mint_key: u64, account: &mut HolderAccount, caller: Identity)
    -> (r: Result<(), TodoError>)
    ensures
        old(account).mint_ref != mint_key ==> (r == Err::<(), TodoError>(TodoError::NotAllowed)
            && *final(account) == *old(account)),
        old(account).mint_ref == mint_key && mint.freeze_authority != Some(caller) ==> (r == Err::<
            (),
            TodoError,
        >(TodoError::Unauthorized) && *final(account) == *old(account)),
        old(account).mint_ref == mint_key && mint.freeze_authority == Some(caller) ==> (r == Ok::<
            (),
            TodoError,
        >(()) && *final(account) == HolderAccount { frozen: true, ..*old(account) }),
{
    if account.mint_ref != mint_key {
        return Err(TodoError::NotAllowed);
    }
    let authorized = match mint.freeze_authority {
        Some(a) => a.id == caller.id,
        None => false,
    };
    if !authorized {
        return Err(TodoError::Unauthorized);
    }
    account.frozen = true;
    Ok(())
}

/// Whether some stored account already belongs to `owner` under the mint
/// stored at `mint_key`: each `(owner, mint)` pair is created at most once.
pub open spec fn holder_exists(s: Seq<Entry<HolderAccount>>, owner: Identity, mint_key: u64) -> bool {
    exists|i: int|
        0 <= i < s.len() && s[i].value.owner == owner && s[i].value.mint_ref == mint_key
}

/// No double initialization of a holder account. A first successful
/// `create_holder_account` makes the stored entries `s.push(entry)`,
/// where a record then exists at `entry.key` and its `(owner, mint)`
/// pair is recorded — so the contract of `create_holder_account` forces
/// a second call at the same key, or for the same pair, to fail with
/// `AlreadyInitialized` and to leave the first call's record untouched.
pub proof fn lemma_no_double_create_holder(
    s: Seq<Entry<HolderAccount>>,
    entry: Entry<HolderAccount>,
)
    ensures
        lookup(s.push(entry), entry.key) is Some,
        holder_exists(s.push(entry), entry.value.owner, entry.value.mint_ref),
{
    lemma_lookup_push(s, entry, entry.key);
    let i = s.len() as int;
    assert(s.push(entry)[i] == entry);
}

/// How many tokens of the mint stored at `mint_key` the accounts of `s`
/// hold in total.
pub open spec fn sum_balances(s: Seq<Entry<HolderAccount>>, mint_key: u64) -> int
    decreases s.len(),
{
    if s.len() == 0 {
        0
    } else {
        sum_balances(s.drop_last(), mint_key) + if s.last().value.mint_ref == mint_key {
            s.last().value.balance as int
        } else {
            0
        }
    }
}

/// The relationship invariant between the two components: every holder
/// account references an existing mint record, and the accounts of a
/// mint never hold more than its recorded supply in total.
pub open spec fn ledger_consistent(registry: Registry, ledger: Ledger) -> bool {
    &&& forall|i: int|
        0 <= i < ledger.accounts@.len() ==> registry.mint_at(
            (#[trigger] ledger.accounts@[i]).value.mint_ref,
        ) is Some
    &&& forall|key: u64|
        #[trigger] registry.mint_at(key) is Some ==> sum_balances(ledger.accounts@, key)
            <= registry.mint_at(key).unwrap().supply
}

proof fn lemma_sum_balances_push(s: Seq<Entry<HolderAccount>>, e: Entry<HolderAccount>, key: u64)
    ensures
        sum_balances(s.push(e), key) == sum_balances(s, key) + if e.value.mint_ref == key {
            e.value.balance as int
        } else {
            0
        },
{
    assert(s.push(e).drop_last() =~= s);
    assert(s.push(e).last() == e);
}

proof fn lemma_sum_balances_update(
    s: Seq<Entry<HolderAccount>>,
    i: int,
    e: Entry<HolderAccount>,
    key: u64,
)
    requires
        0 <= i < s.len(),
    ensures
        sum_balances(s.update(i, e), key) == sum_balances(s, key) - (if s[i].value.mint_ref == key {
            s[i].value.balance as int
        } else {
            0
        }) + (if e.value.mint_ref == key {
            e.value.balance as int
        } else {
            0
        }),
    decreases s.len(),
{
    if i == s.len() - 1 {
        assert(s.update(i, e).drop_last() =~= s.drop_last());
        assert(s.update(i, e).last() == e);
        assert(s.last() == s[i]);
    } else {
        assert(s.update(i, e).drop_last() =~= s.drop_last().update(i, e));
        assert(s.update(i, e).last() == s.last());
        assert(s.drop_last()[i] == s[i]);
        lemma_sum_balances_update(s.drop_last(), i, e, key);
    }
}

proof fn lemma_sum_balances_zero(s: Seq<Entry<HolderAccount>>, key: u64)
    requires
        forall|i: int| 0 <= i < s.len() ==> (#[trigger] s[i]).value.mint_ref != key,
    ensures
        sum_balances(s, key) == 0,
    decreases s.len(),
{
    if s.len() > 0 {
        assert(s.last() == s[s.len() - 1]);
        assert forall|i: int| 0 <= i < s.drop_last().len() implies (#[trigger] s.drop_last()[i]).value.mint_ref
            != key by {
            assert(s.drop_last()[i] == s[i]);
        }
        lemma_sum_balances_zero(s.drop_last(), key);
    }
}

/// The relationship invariant holds of freshly created components: with
/// no records stored there is nothing to relate. Together with its
/// preservation by every operation, every state reachable through this
/// core is consistent.
pub proof fn lemma_consistent_initial(registry: Registry, ledger: Ledger)
    requires
        registry.entries@.len() == 0,
        ledger.accounts@.len() == 0,
    ensures
        ledger_consistent(registry, ledger),
{
    assert forall|key: u64| #[trigger] registry.mint_at(key) is Some implies sum_balances(
        ledger.accounts@,
        key,
    ) <= registry.mint_at(key).unwrap().supply by {
        assert(lookup(registry.entries@, key) is None);
    }
}

/// Creating a mint record preserves the relationship invariant: the new
/// record starts with zero supply, and no account can reference its key,
/// since before the call no record existed there and every account
/// reference resolved.
pub proof fn lemma_consistent_after_create_mint(
    registry: Registry,
    updated: Registry,
    ledger: Ledger,
    entry: Entry<Mint>,
)
    requires
        ledger_consistent(registry, ledger),
        registry.mint_at(entry.key) is None,
        entry.value.supply == 0,
        updated.entries@ == registry.entries@.push(entry),
    ensures
        ledger_consistent(updated, ledger),
{
    assert forall|i: int|
        0 <= i < ledger.accounts@.len() implies (#[trigger] ledger.accounts@[i]).value.mint_ref
        != entry.key by {
        assert(registry.mint_at(ledger.accounts@[i].value.mint_ref) is Some);
    }
    lemma_sum_balances_zero(ledger.accounts@, entry.key);
    assert forall|i: int|
        0 <= i < ledger.accounts@.len() implies updated.mint_at(
        (#[trigger] ledger.accounts@[i]).value.mint_ref,
    ) is Some by {
        let r = ledger.accounts@[i].value.mint_ref;
        assert(registry.mint_at(r) is Some);
        lemma_lookup_push(registry.entries@, entry, r);
    }
    assert forall|key: u64| #[trigger]
        updated.mint_at(key) is Some implies sum_balances(ledger.accounts@, key)
        <= updated.mint_at(key).unwrap().supply by {
        lemma_lookup_push(registry.entries@, entry, key);
        if key == entry.key {
            assert(sum_balances(ledger.accounts@, key) == 0);
        } else {
            assert(registry.mint_at(key) is Some);
        }
    }
}

/// Creating a holder account preserves the relationship invariant: the
/// new account starts with zero balance and references a mint record
/// that exists.
pub proof fn lemma_consistent_after_create_holder(
    registry: Registry,
    ledger: Ledger,
    updated: Ledger,
    entry: Entry<HolderAccount>,
)
    requires
        ledger_consistent(registry, ledger),
        registry.mint_at(entry.value.mint_ref) is Some,
        entry.value.balance == 0,
        updated.accounts@ == ledger.accounts@.push(entry),
    ensures
        ledger_consistent(registry, updated),
{
    let s = ledger.accounts@;
    assert forall|i: int|
        0 <= i < updated.accounts@.len() implies registry.mint_at(
        (#[trigger] updated.accounts@[i]).value.mint_ref,
    ) is Some by {
        if i < s.len() {
            assert(updated.accounts@[i] == s[i]);
        } else {
            assert(updated.accounts@[i] == entry);
        }
    }
    assert forall|key: u64| #[trigger]
        registry.mint_at(key) is Some implies sum_balances(updated.accounts@, key) <= registry.mint_at(
        key,
    ).unwrap().supply by {
        lemma_sum_balances_push(s, entry, key);
    }
}

/// The holder ledger: every holder-account record, keyed by an opaque
/// identifier picked by the storage collaborator.
pub struct Ledger {
    pub accounts: Vec<Entry<HolderAccount>>,
}

impl Ledger {
    /// The holder account stored at `key`, if one has been created there.
    pub open spec fn account_at(self, key: u64) -> Option<HolderAccount> {
        lookup(self.accounts@, key)
    }

    /// An empty ledger: no holder account exists at any key.
    pub fn new() -> (r: Ledger)
        ensures
            r.accounts@.len() == 0,
            forall|k: u64| r.account_at(k) is None,
    {
        Ledger { accounts: Vec::new() }
    }

    /// Read the holder account stored at `key`, if any.
    pub fn holder_account(&self, key: u64) -> (r: Option<HolderAccount>)
        ensures
            r == self.account_at(key),
    {
        match find_entry(&self.accounts, key) {
            Some(i) => Some(self.accounts[i].value),
            None => None,
        }
    }

    /// Whether the ledger already records an account of `owner` for the
    /// mint stored at `mint_key`.
    fn holder_recorded(&self, owner: Identity, mint_key: u64) -> (r: bool)
        ensures
            r == holder_exists(self.accounts@, owner, mint_key),
    {
        let n = self.accounts.len();
        let mut i: usize = 0;
        while i < n
            invariant
                i <= n,
                n == self.accounts@.len(),
                forall|j: int|
                    0 <= j < i ==> !(self.accounts@[j].value.owner == owner
                        && self.accounts@[j].value.mint_ref == mint_key),
            decreases n - i,
        {
            let candidate = self.accounts[i].value;
            if candidate.owner.id == owner.id && candidate.mint_ref == mint_key {
                return true;
            }
            i = i + 1;
        }
        false
    }

    /// Create the holder account at `key` for `owner` under the mint
    /// stored at `mint`, with zero balance and not frozen.
    ///
    /// Fails with `MintNotFound`, changing nothing, if no mint record
    /// exists at `mint`, and with `AlreadyInitialized`, changing nothing,
    /// if a record already exists at `key` or `owner` already has an
    /// account for that mint: the pair is created exactly once.
    pub fn create_holder_account(
        &mut self,
        registry: &Registry,
        key: u64,
        owner: Identity,
        mint: u64,
    ) -> (r: Result<(), TodoError>)
        ensures
            registry.mint_at(mint) is None ==> (r == Err::<(), TodoError>(TodoError::MintNotFound)
                && *final(self) == *old(self)),
            registry.mint_at(mint) is Some && (old(self).account_at(key) is Some || holder_exists(
                old(self).accounts@,
                owner,
                mint,
            )) ==> (r == Err::<(), TodoError>(TodoError::AlreadyInitialized) && *final(self)
                == *old(self)),
            registry.mint_at(mint) is Some && old(self).account_at(key) is None && !holder_exists(
                old(self).accounts@,
                owner,
                mint,
            ) ==> (r == Ok::<(), TodoError>(())
                && final(self).accounts@ == old(self).accounts@.push(
                (Entry { key, value: fresh_holder(owner, mint) }),
            ) && final(self).account_at(key) == Some(fresh_holder(owner, mint)) && (forall|k: u64|
                k != key ==> final(self).account_at(k) == old(self).account_at(k))),
    {
        match find_entry(&registry.entries, mint) {
            None => {
                return Err(TodoError::MintNotFound);
            },
            Some(_) => {},
        }
        match find_entry(&self.accounts, key) {
            Some(_) => {
                return Err(TodoError::AlreadyInitialized);
            },
            None => {},
        }
        if self.holder_recorded(owner, mint) {
            return Err(TodoError::AlreadyInitialized);
        }
        let entry = Entry { key, value: HolderAccount { owner, mint_ref: mint, balance: 0, frozen: false } };
        self.accounts.push(entry);
        proof {
            lemma_lookup_push(old(self).accounts@, entry, key);
            assert forall|k: u64| k != key implies lookup(self.accounts@, k) == lookup(
                old(self).accounts@,
                k,
            ) by {
                lemma_lookup_push(old(self).accounts@, entry, k);
            }
        }
        Ok(())
    }

    /// Mint `amount` new tokens into the account stored at `account_key`,
    /// drawing on the mint stored at `mint_key`, on behalf of `caller`.
    ///
    /// Resolves both records and then behaves as `mint_to` on them: on
    /// success the mint's supply and the account's balance rise together
    /// by `amount` and every other key keeps its record; on any failure
    /// neither the registry nor the ledger changes. An unresolved mint
    /// key fails with `MintNotFound`, an unresolved account key with
    /// `NotAllowed`.
    pub fn mint_to_keys(
        &mut self,
        registry: &mut Registry,
        mint_key: u64,
        account_key: u64,
        caller: Identity,
        amount: u64,
    ) -> (r: Result<(), TodoError>)
        ensures
            ({
                let m0 = old(registry).mint_at(mint_key);
                let a0 = old(self).account_at(account_key);
                match (m0, a0) {
                    (Option::None, _) => r == Err::<(), TodoError>(TodoError::MintNotFound)
                        && *final(registry) == *old(registry) && *final(self) == *old(self),
                    (Option::Some(_), Option::None) => r == Err::<(), TodoError>(
                        TodoError::NotAllowed,
                    ) && *final(registry) == *old(registry) && *final(self) == *old(self),
                    (Option::Some(m), Option::Some(a)) => if mint_to_ok(
                        m,
                        mint_key,
                        a,
                        caller,
                        amount,
                    ) {
                        r == Ok::<(), TodoError>(()) && final(registry).mint_at(mint_key) == Some(
                            supply_increased(m, amount),
                        ) && final(self).account_at(account_key) == Some(
                            balance_increased(a, amount),
                        ) && (forall|k: u64|
                            k != mint_key ==> final(registry).mint_at(k) == old(registry).mint_at(
                                k,
                            )) && (forall|k: u64|
                            k != account_key ==> final(self).account_at(k) == old(self).account_at(
                                k,
                            )) && final(registry).entries@.len() == old(registry).entries@.len()
                            && final(self).accounts@.len() == old(self).accounts@.len()
                    } else {
                        r == Err::<(), TodoError>(mint_to_error(m, mint_key, a, caller))
                            && *final(registry) == *old(registry) && *final(self) == *old(self)
                    },
                }
            }),
            ledger_consistent(*old(registry), *old(self)) ==> ledger_consistent(
                *final(registry),
                *final(self),
            ),
    {
        let mi = match find_entry(&registry.entries, mint_key) {
            Some(i) => i,
            None => {
                return Err(TodoError::MintNotFound);
            },
        };
        let ai = match find_entry(&self.accounts, account_key) {
            Some(i) => i,
            None => {
                return Err(TodoError::NotAllowed);
            },
        };
        let mut mint_record = registry.entries[mi].value;
        let mut account_record = self.accounts[ai].value;
        match mint_to(&mut mint_record, mint_key, &mut account_record, caller, amount) {
            Ok(()) => {
                let mint_entry = Entry { key: mint_key, value: mint_record };
                let account_entry = Entry { key: account_key, value: account_record };
                registry.entries.set(mi, mint_entry);
                self.accounts.set(ai, account_entry);
                proof {
                    assert forall|k: u64| #![auto]
                        lookup(registry.entries@, k) == (if k == mint_key {
                            Some(mint_entry.value)
                        } else {
                            lookup(old(registry).entries@, k)
                        }) by {
                        lemma_lookup_update(old(registry).entries@, mi as int, mint_entry, k);
                    }
                    assert forall|k: u64| #![auto]
                        lookup(self.accounts@, k) == (if k == account_key {
                            Some(account_entry.value)
                        } else {
                            lookup(old(self).accounts@, k)
                        }) by {
                        lemma_lookup_update(old(self).accounts@, ai as int, account_entry, k);
                    }
                    if ledger_consistent(*old(registry), *old(self)) {
                        let s0 = old(self).accounts@;
                        let r0 = old(registry).entries@;
                        let a = lookup(s0, account_key).unwrap();
                        let m = lookup(r0, mint_key).unwrap();
                        assert(s0[ai as int].value == a);
                        assert(r0[mi as int].value == m);
                        assert forall|i: int|
                            0 <= i < self.accounts@.len() implies registry.mint_at(
                            (#[trigger] self.accounts@[i]).value.mint_ref,
                        ) is Some by {
                            if i == ai as int {
                                assert(self.accounts@[i] == account_entry);
                            } else {
                                assert(self.accounts@[i] == s0[i]);
                                assert(old(registry).mint_at(s0[i].value.mint_ref) is Some);
                            }
                        }
                        assert forall|key: u64| #[trigger]
                            registry.mint_at(key) is Some implies sum_balances(
                            self.accounts@,
                            key,
                        ) <= registry.mint_at(key).unwrap().supply by {
                            lemma_sum_balances_update(s0, ai as int, account_entry, key);
                            assert(old(registry).mint_at(key) is Some);
                            assert(sum_balances(s0, key) <= old(registry).mint_at(
                                key,
                            ).unwrap().supply);
                        }
                        assert(ledger_consistent(*registry, *self));
                    }
                }
                Ok(())
            },
            Err(e) => Err(e),
        }
    }
}

} // verus!
