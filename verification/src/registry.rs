//! The mint registry: the canonical record of each token type and the sole
//! path through which its supply grows.

use vstd::prelude::*;

use crate::error::TodoError;
use crate::store::find_entry;
use crate::store::lemma_lookup_push;
use crate::store::lookup;
use crate::store::Entry;
use crate::Identity;

verus! {

/// The designated custodian of a mint: an orthogonal access-control hook.
/// No operation of this core reads it; it is stored for governance
/// operations outside the core.
#[derive(Clone, Copy, Debug, PartialEq, Eq, Structural)]
pub enum CustodianOption {
    Custodian(Identity),
    Absent,
}

/// The canonical record of one token type.
#[derive(Clone, Copy, Debug, PartialEq, Eq, Structural)]
pub struct Mint {
    /// Total tokens ever minted. Monotonically non-decreasing: every
    /// increment is overflow-checked and fails the whole operation rather
    /// than wrapping.
    pub supply: u64,
    /// The identity permitted to mint; `None` means minting is permanently
    /// disabled.
    pub mint_authority: Option<Identity>,
    /// The identity permitted to freeze holder accounts.
    pub freeze_authority: Option<Identity>,
    /// Fixed decimal precision, immutable after creation.
    pub decimal_places: u8,
    /// Whether authorities may later be revoked or changed.
    pub is_mutable: bool,
    /// Reserved extension point; stored, never read by this core.
    pub custodian_option: CustodianOption,
    /// Tokens held back from circulating supply; stored, never read by
    /// this core.
    pub reserve: Option<u64>,
}

/// The record a freshly created mint holds: zero supply, the requested
/// authorities, and both extension points absent.
pub open spec fn fresh_mint(
    decimals: u8,
    mint_authority: Option<Identity>,
    freeze_authority: Option<Identity>,
    is_mutable: bool,
) -> Mint {
    Mint {
        supply: 0,
        mint_authority,
        freeze_authority,
        decimal_places: decimals,
        is_mutable,
        custodian_option: CustodianOption::Absent,
        reserve: None,
    }
}

/// `m` with its supply raised by `amount` and every other field unchanged.
/// Meaningful only when `m.supply + amount` fits in a `u64`.
pub open spec fn supply_increased(m: Mint, amount: u64) -> Mint {
    Mint { supply: (m.supply + amount) as u64, ..m }
}

/// Raise `mint.supply` by `amount` on behalf of `caller`.
///
/// Fails with `Unauthorized` unless `caller` is the mint authority, and
/// with `MathOverflow` if the new supply would not fit in a `u64`; on any
/// failure the record is left exactly as it was.
pub fn increase_supply(mint: &mut Mint, caller: Identity, amount: u64) -> (r: Result<
    (),
    TodoError,
>)
    ensures
        old(mint).mint_authority == Some(caller) && old(mint).supply + amount <= u64::MAX ==> (r
            == Ok::<(), TodoError>(()) && *final(mint) == supply_increased(*old(mint), amount)),
        old(mint).mint_authority != Some(caller) ==> (r == Err::<(), TodoError>(
            TodoError::Unauthorized,
        ) && *final(mint) == *old(mint)),
        old(mint).mint_authority == Some(caller) && old(mint).supply + amount > u64::MAX ==> (r
            == Err::<(), TodoError>(TodoError::MathOverflow) && *final(mint) == *old(mint)),
{
    let authorized = match mint.mint_authority {
        Some(a) => a.id == caller.id,
        None => false,
    };
    if !authorized {
        return Err(TodoError::Unauthorized);
    }
    match mint.supply.checked_add(amount) {
        Some(new_supply) => {
            mint.supply = new_supply;
            Ok(())
        },
        None => Err(TodoError::MathOverflow),
    }
}

/// The sum of a sequence of minted amounts.
pub open spec fn sum_amounts(amounts: Seq<u64>) -> int
    decreases amounts.len(),
{
    if amounts.len() == 0 {
        0
    } else {
        sum_amounts(amounts.drop_last()) + amounts.last()
    }
}

/// The mint record after a sequence of successful supply increases, one
/// per amount in order.
pub open spec fn apply_increases(m: Mint, amounts: Seq<u64>) -> Mint
    decreases amounts.len(),
{
    if amounts.len() == 0 {
        m
    } else {
        supply_increased(apply_increases(m, amounts.drop_last()), amounts.last())
    }
}

proof fn lemma_sum_amounts_nonneg(amounts: Seq<u64>)
    ensures
        sum_amounts(amounts) >= 0,
    decreases amounts.len(),
{
    if amounts.len() > 0 {
        lemma_sum_amounts_nonneg(amounts.drop_last());
    }
}

/// Supply monotonicity. `increase_supply` and `mint_to` ensure that every
/// successful call turns the mint record `m` into `supply_increased(m,
/// amount)` and that no failing call changes it, so after any sequence of
/// successful calls the record is `apply_increases(m, amounts)`: its
/// supply equals the initial supply plus the sum of all minted amounts —
/// in particular it never decreases and never wraps — and every other
/// field keeps its value.
pub proof fn lemma_supply_monotonic(m: Mint, amounts: Seq<u64>)
    requires
        m.supply + sum_amounts(amounts) <= u64::MAX,
    ensures
        apply_increases(m, amounts).supply == m.supply + sum_amounts(amounts),
        apply_increases(m, amounts).supply >= m.supply,
        apply_increases(m, amounts) == (Mint {
            supply: apply_increases(m, amounts).supply,
            ..m
        }),
    decreases amounts.len(),
{
    lemma_sum_amounts_nonneg(amounts);
    if amounts.len() > 0 {
        lemma_supply_monotonic(m, amounts.drop_last());
    }
}

/// No double initialization of a mint. A first successful `create_mint`
/// at `entry.key` makes the stored entries `s.push(entry)`, where a
/// record then exists at that key — so the contract of `create_mint`
/// forces a second call at the same key to fail with
/// `AlreadyInitialized` and to leave the first call's record untouched.
pub proof fn lemma_no_double_create_mint(s: Seq<Entry<Mint>>, entry: Entry<Mint>)
    ensures
        lookup(s.push(entry), entry.key) is Some,
{
    lemma_lookup_push(s, entry, entry.key);
}

/// The mint registry: the canonical mint record of every token type,
/// keyed by an opaque identifier picked by the storage collaborator.
pub struct Registry {
    pub entries: Vec<Entry<Mint>>,
}

impl Registry {
    /// The mint record stored at `key`, if one has been created there.
    pub open spec fn mint_at(self, key: u64) -> Option<Mint> {
        lookup(self.entries@, key)
    }

    /// An empty registry: no mint record exists at any key.
    pub fn new() -> (r: Registry)
        ensures
            r.entries@.len() == 0,
            forall|k: u64| r.mint_at(k) is None,
    {
        Registry { entries: Vec::new() }
    }

    /// Read the mint record stored at `key`, if any.
    pub fn mint_record(&self, key: u64) -> (r: Option<Mint>)
        ensures
            r == self.mint_at(key),
    {
        match find_entry(&self.entries, key) {
            Some(i) => Some(self.entries[i].value),
            None => None,
        }
    }

    /// Create the mint record at `key` with zero supply and the given
    /// authorities, on behalf of `requested_by` (whose rent authorization
    /// the storage collaborator has already validated; it is not
    /// re-validated here).
    ///
    /// Fails with `AlreadyInitialized`, changing nothing, if a record
    /// already exists at `key`: a mint is created exactly once.
    pub fn create_mint(
        &mut self,
        key: u64,
        requested_by: Identity,
        decimals: u8,
        mint_authority: Option<Identity>,
        freeze_authority: Option<Identity>,
        is_mutable: bool,
    ) -> (r: Result<(), TodoError>)
        ensures
            old(self).mint_at(key) is Some ==> (r == Err::<(), TodoError>(
                TodoError::AlreadyInitialized,
            ) && *final(self) == *old(self)),
            old(self).mint_at(key) is None ==> (r == Ok::<(), TodoError>(())
                && final(self).entries@ == old(self).entries@.push(
                (Entry {
                    key,
                    value: fresh_mint(decimals, mint_authority, freeze_authority, is_mutable),
                }),
            ) && final(self).mint_at(key) == Some(
                fresh_mint(decimals, mint_authority, freeze_authority, is_mutable),
            ) && (forall|k: u64| k != key ==> final(self).mint_at(k) == old(self).mint_at(k))),
    {
        match find_entry(&self.entries, key) {
            Some(_) => Err(TodoError::AlreadyInitialized),
            None => {
                let record = Mint {
                    supply: 0,
                    mint_authority,
                    freeze_authority,
                    decimal_places: decimals,
                    is_mutable,
                    custodian_option: CustodianOption::Absent,
                    reserve: None,
                };
                let entry = Entry { key, value: record };
                self.entries.push(entry);
                proof {
                    lemma_lookup_push(old(self).entries@, entry, key);
                    assert forall|k: u64| k != key implies lookup(self.entries@, k) == lookup(
                        old(self).entries@,
                        k,
                    ) by {
                        lemma_lookup_push(old(self).entries@, entry, k);
                    }
                }
                Ok(())
            },
        }
    }
}

} // verus!
