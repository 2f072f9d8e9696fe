use vstd::prelude::*;

use crate::assoc::{
    assoc_map, bytes_eq, find_key, find_pair_key, lemma_assoc_contains, lemma_assoc_index,
    lemma_assoc_push, lemma_assoc_remove, lemma_assoc_update, unique_keys,
};
use crate::rng;
use vstd::pervasive::VecAdditionalExecFns;

verus! {

broadcast use vstd::array::group_array_axioms;

/// The minter-chosen 32-byte identifier of a token.
pub type Seed = [u8; 32];

/// A species, between 1 and 151, assigned once at mint time.
pub type PokemonId = u32;

/// An account, an opaque 32-byte identifier; all zero bytes is the reserved
/// "no account" sentinel.
pub type AccountId = [u8; 32];

/// Everything that can go wrong in a ledger operation.
#[derive(Debug, PartialEq, Eq, Structural, Clone, Copy)]
pub enum Error {
    /// Species sampling failed; unreachable while the weight table is intact.
    InvalidSeed,
    /// Reserved; no operation reports it.
    NotOwner,
    /// The caller may not act on this token, or asked for a self-referential
    /// operator relationship.
    NotAllowed,
    /// A target account is the reserved zero account.
    InvalidAddress,
    /// The operation needs a token that does not exist.
    TokenNotFound,
    /// A mint asked for a seed that already has an owner.
    TokenAlreadyExists,
    /// An internal balance counter was missing or would underflow; a defect
    /// signal, unreachable while the ledger is well formed.
    ValueNotFound,
    /// An approval removal disagreed with recorded state; a defect signal.
    CannotRemove,
}

/// Report of freshly minted tokens.
#[derive(Debug, PartialEq, Eq, Clone, Copy)]
pub struct Minted {
    pub amount: PokemonId,
    pub owner: AccountId,
}

/// Report of a change of owner; `from` is `None` when the token was minted.
#[derive(Debug, PartialEq, Eq, Clone, Copy)]
pub struct Transfer {
    pub seed: Seed,
    pub from: Option<AccountId>,
    pub to: Option<AccountId>,
}

/// Report of a change of a token's delegate; `account` is `None` on clearing.
#[derive(Debug, PartialEq, Eq, Clone, Copy)]
pub struct Approval {
    pub seed: Seed,
    pub account: Option<AccountId>,
}

/// One entry of the ledger's event log.
#[derive(Debug, PartialEq, Eq, Clone, Copy)]
pub enum Event {
    Minted(Minted),
    Transfer(Transfer),
    Approval(Approval),
}

/// The reserved sentinel account.
pub open spec fn is_zero(a: AccountId) -> bool {
    forall|i: int| 0 <= i < 32 ==> a@[i] == 0
}

/// Whether an account is the all-zero sentinel.
fn check_zero(a: &AccountId) -> (r: bool)
    ensures
        r == is_zero(*a),
{
    let mut i: usize = 0;
    while i < 32
        invariant
            0 <= i <= 32,
            forall|j: int| 0 <= j < i ==> a@[j] == 0,
        decreases 32 - i,
    {
        if a[i] != 0 {
            assert(a@[i as int] != 0);
            return false;
        }
        i += 1;
    }
    true
}

/// How many entries record the given account as owner.
spec fn owned_count(entries: Seq<(Seed, (AccountId, PokemonId))>, a: AccountId) -> int
    decreases entries.len(),
{
    if entries.len() == 0 {
        0
    } else {
        owned_count(entries.drop_last(), a) + if entries.last().1.0 == a {
            1int
        } else {
            0int
        }
    }
}

/// The sum of all recorded balances.
spec fn sum_counts(entries: Seq<(AccountId, u32)>) -> int
    decreases entries.len(),
{
    if entries.len() == 0 {
        0
    } else {
        sum_counts(entries.drop_last()) + entries.last().1
    }
}

/// The seed-keyed token registry: who owns which token, of which species,
/// with per-token delegates and account-wide operators, and the event log
/// that the operations write.
pub struct PokeNFT {
    owners: Vec<(Seed, (AccountId, PokemonId))>,
    counts: Vec<(AccountId, u32)>,
    approved: Vec<(Seed, AccountId)>,
    operators: Vec<((AccountId, AccountId), bool)>,
    events: Vec<Event>,
}

impl PokeNFT {
    /// Owner and species per existing seed.
    pub closed spec fn owners_map(&self) -> Map<Seed, (AccountId, PokemonId)> {
        assoc_map(self.owners@)
    }

    /// Recorded balance per account.
    pub closed spec fn counts_map(&self) -> Map<AccountId, u32> {
        assoc_map(self.counts@)
    }

    /// Delegate per seed.
    pub closed spec fn approved_map(&self) -> Map<Seed, AccountId> {
        assoc_map(self.approved@)
    }

    /// Operator flag per (owner, operator) pair.
    pub closed spec fn operators_map(&self) -> Map<(AccountId, AccountId), bool> {
        assoc_map(self.operators@)
    }

    /// Everything the ledger has reported, oldest first.
    pub closed spec fn events_log(&self) -> Seq<Event> {
        self.events@
    }

    /// Whether a token with this seed exists.
    pub open spec fn spec_exists(&self, seed: Seed) -> bool {
        self.owners_map().contains_key(seed)
    }

    /// The owner of a token, if it exists.
    pub open spec fn spec_owner_of(&self, seed: Seed) -> Option<AccountId> {
        if self.owners_map().contains_key(seed) {
            Some(self.owners_map()[seed].0)
        } else {
            None
        }
    }

    /// The species of a token, if it exists.
    pub open spec fn spec_pokemon_of(&self, seed: Seed) -> Option<PokemonId> {
        if self.owners_map().contains_key(seed) {
            Some(self.owners_map()[seed].1)
        } else {
            None
        }
    }

    /// The number of tokens the account owns.
    pub open spec fn spec_balance_of(&self, a: AccountId) -> u32 {
        if self.counts_map().contains_key(a) {
            self.counts_map()[a]
        } else {
            0
        }
    }

    /// The token's delegate, if one is recorded.
    pub open spec fn spec_get_approved(&self, seed: Seed) -> Option<AccountId> {
        if self.approved_map().contains_key(seed) {
            Some(self.approved_map()[seed])
        } else {
            None
        }
    }

    /// Whether `operator` may act on every token `owner` owns.
    pub open spec fn spec_is_approved_for_all(&self, owner: AccountId, operator: AccountId) -> bool {
        self.operators_map().contains_key((owner, operator)) && self.operators_map()[(
            owner,
            operator,
        )]
    }

    /// The authorization guard: a caller may act on an existing token when it
    /// owns it, is its delegate, or is an operator for its owner.
    pub open spec fn spec_is_authorized(&self, caller: AccountId, seed: Seed) -> bool
        recommends
            self.spec_exists(seed),
    {
        ||| self.spec_owner_of(seed) == Some(caller)
        ||| self.spec_get_approved(seed) == Some(caller)
        ||| (self.spec_exists(seed) && self.spec_is_approved_for_all(
            self.owners_map()[seed].0,
            caller,
        ))
    }

    /// The ledger's invariants: unique keys in every list; every balance
    /// counts exactly the tokens its account owns; the balances sum to the
    /// number of tokens; the zero account owns nothing, is nobody's delegate
    /// and nobody's operator; no account is its own operator; and a delegate
    /// is recorded only for an existing token.
    pub closed spec fn wf(&self) -> bool {
        &&& unique_keys(self.owners@)
        &&& unique_keys(self.counts@)
        &&& unique_keys(self.approved@)
        &&& unique_keys(self.operators@)
        &&& forall|a: AccountId| #![auto] self.spec_balance_of(a) == owned_count(self.owners@, a)
        &&& sum_counts(self.counts@) == self.owners@.len()
        &&& forall|i: int| 0 <= i < self.owners@.len() ==> !is_zero(#[trigger] self.owners@[i].1.0)
        &&& forall|i: int| 0 <= i < self.approved@.len() ==> !is_zero(#[trigger] self.approved@[i].1)
        &&& forall|i: int|
            0 <= i < self.approved@.len() ==> self.owners_map().contains_key(
                #[trigger] self.approved@[i].0,
            )
        &&& forall|i: int|
            0 <= i < self.operators@.len() ==> !is_zero(#[trigger] self.operators@[i].0.1)
                && self.operators@[i].0.0 != self.operators@[i].0.1
    }

    /// A fresh, empty registry.
    pub fn new() -> (r: Self)
        ensures
            r.wf(),
            r.owners_map() == Map::<Seed, (AccountId, PokemonId)>::empty(),
            r.counts_map() == Map::<AccountId, u32>::empty(),
            r.approved_map() == Map::<Seed, AccountId>::empty(),
            r.operators_map() == Map::<(AccountId, AccountId), bool>::empty(),
            r.events_log() == Seq::<Event>::empty(),
    {
        let r = PokeNFT {
            owners: Vec::new(),
            counts: Vec::new(),
            approved: Vec::new(),
            operators: Vec::new(),
            events: Vec::new(),
        };
        proof {
            assert(r.events_log() =~= Seq::<Event>::empty());
            assert forall|a: AccountId| #![auto]
                r.spec_balance_of(a) == owned_count(r.owners@, a) by {
                lemma_assoc_contains(r.counts@, a);
            }
        }
        r
    }

    /// How many tokens the account owns; zero for an account never seen.
    pub fn balance_of(&self, owner: AccountId) -> (r: u32)
        requires
            self.wf(),
        ensures
            r == self.spec_balance_of(owner),
    {
        match find_key(&self.counts, &owner) {
            Some(i) => {
                proof {
                    lemma_assoc_index(self.counts@, i as int);
                }
                self.counts[i].1
            },
            None => {
                proof {
                    lemma_assoc_contains(self.counts@, owner);
                }
                0
            },
        }
    }

    /// The owner of the token, or `None` if no such token exists.
    pub fn owner_of(&self, seed: Seed) -> (r: Option<AccountId>)
        requires
            self.wf(),
        ensures
            r == self.spec_owner_of(seed),
    {
        match find_key(&self.owners, &seed) {
            Some(i) => {
                proof {
                    lemma_assoc_index(self.owners@, i as int);
                }
                Some(self.owners[i].1.0)
            },
            None => {
                proof {
                    lemma_assoc_contains(self.owners@, seed);
                }
                None
            },
        }
    }

    /// The species of the token, or `None` if no such token exists.
    pub fn pokemon_of(&self, seed: Seed) -> (r: Option<PokemonId>)
        requires
            self.wf(),
        ensures
            r == self.spec_pokemon_of(seed),
    {
        match find_key(&self.owners, &seed) {
            Some(i) => {
                proof {
                    lemma_assoc_index(self.owners@, i as int);
                }
                Some(self.owners[i].1.1)
            },
            None => {
                proof {
                    lemma_assoc_contains(self.owners@, seed);
                }
                None
            },
        }
    }

    /// The token's recorded delegate, or `None`.
    pub fn get_approved(&self, seed: Seed) -> (r: Option<AccountId>)
        requires
            self.wf(),
        ensures
            r == self.spec_get_approved(seed),
    {
        match find_key(&self.approved, &seed) {
            Some(i) => {
                proof {
                    lemma_assoc_index(self.approved@, i as int);
                }
                Some(self.approved[i].1)
            },
            None => {
                proof {
                    lemma_assoc_contains(self.approved@, seed);
                }
                None
            },
        }
    }

    /// Whether `operator` is recorded as an operator for `account`.
    pub fn is_approved_for_all(&self, account: AccountId, operator: AccountId) -> (r: bool)
        requires
            self.wf(),
        ensures
            r == self.spec_is_approved_for_all(account, operator),
    {
        match find_pair_key(&self.operators, &account, &operator) {
            Some(i) => {
                proof {
                    lemma_assoc_index(self.operators@, i as int);
                }
                self.operators[i].1
            },
            None => {
                proof {
                    lemma_assoc_contains(self.operators@, (account, operator));
                }
                false
            },
        }
    }

    /// Everything reported so far, oldest first.
    pub fn events(&self) -> (r: &Vec<Event>)
        ensures
            r@ == self.events_log(),
    {
        &self.events
    }
}

/// Appending an owners entry raises the new owner's count by one and no other.
proof fn lemma_owned_count_push(
    entries: Seq<(Seed, (AccountId, PokemonId))>,
    e: (Seed, (AccountId, PokemonId)),
    a: AccountId,
)
    ensures
        owned_count(entries.push(e), a) == owned_count(entries, a) + if e.1.0 == a {
            1int
        } else {
            0int
        },
{
    assert(entries.push(e).drop_last() =~= entries);
    assert(entries.push(e).last() == e);
}

/// Replacing the value at one index moves one unit of count from the old
/// owner to the new one.
proof fn lemma_owned_count_update(
    entries: Seq<(Seed, (AccountId, PokemonId))>,
    i: int,
    v: (AccountId, PokemonId),
    a: AccountId,
)
    requires
        0 <= i < entries.len(),
    ensures
        owned_count(entries.update(i, (entries[i].0, v)), a) == owned_count(entries, a) - (
        if entries[i].1.0 == a {
            1int
        } else {
            0int
        }) + (if v.0 == a {
            1int
        } else {
            0int
        }),
    decreases entries.len(),
{
    let updated = entries.update(i, (entries[i].0, v));
    if i == entries.len() - 1 {
        assert(updated.drop_last() =~= entries.drop_last());
        assert(updated.last() == (entries[i].0, v));
    } else {
        lemma_owned_count_update(entries.drop_last(), i, v, a);
        assert(updated.drop_last() =~= entries.drop_last().update(i, (entries[i].0, v)));
        assert(entries.drop_last()[i] == entries[i]);
        assert(updated.last() == entries.last());
    }
}

/// A count never goes below zero.
proof fn lemma_owned_count_nonneg(entries: Seq<(Seed, (AccountId, PokemonId))>, a: AccountId)
    ensures
        owned_count(entries, a) >= 0,
    decreases entries.len(),
{
    if entries.len() > 0 {
        lemma_owned_count_nonneg(entries.drop_last(), a);
    }
}

/// An account recorded as owner at some index owns at least one token.
proof fn lemma_owned_count_at_least_one(
    entries: Seq<(Seed, (AccountId, PokemonId))>,
    i: int,
    a: AccountId,
)
    requires
        0 <= i < entries.len(),
        entries[i].1.0 == a,
    ensures
        owned_count(entries, a) >= 1,
    decreases entries.len(),
{
    if i == entries.len() - 1 {
        lemma_owned_count_nonneg(entries.drop_last(), a);
    } else {
        lemma_owned_count_at_least_one(entries.drop_last(), i, a);
        assert(entries.drop_last()[i] == entries[i]);
    }
}

/// Replacing the value at one index shifts the sum by the difference.
proof fn lemma_sum_counts_update(entries: Seq<(AccountId, u32)>, i: int, v: u32)
    requires
        0 <= i < entries.len(),
    ensures
        sum_counts(entries.update(i, (entries[i].0, v))) == sum_counts(entries) - entries[i].1
            + v,
    decreases entries.len(),
{
    let updated = entries.update(i, (entries[i].0, v));
    if i == entries.len() - 1 {
        assert(updated.drop_last() =~= entries.drop_last());
        assert(updated.last() == (entries[i].0, v));
    } else {
        lemma_sum_counts_update(entries.drop_last(), i, v);
        assert(updated.drop_last() =~= entries.drop_last().update(i, (entries[i].0, v)));
        assert(entries.drop_last()[i] == entries[i]);
        assert(updated.last() == entries.last());
    }
}

/// The balance an entry list records for an account, zero when absent.
spec fn balance_in(entries: Seq<(AccountId, u32)>, a: AccountId) -> u32 {
    if assoc_map(entries).contains_key(a) {
        assoc_map(entries)[a]
    } else {
        0
    }
}

/// Raise an account's recorded balance by one, creating the record at one
/// when the account was never seen.
fn increase_count(counts: &mut Vec<(AccountId, u32)>, account: &AccountId)
    requires
        unique_keys(old(counts)@),
        balance_in(old(counts)@, *account) < u32::MAX,
    ensures
        unique_keys(final(counts)@),
        assoc_map(final(counts)@) == assoc_map(old(counts)@).insert(
            *account,
            (balance_in(old(counts)@, *account) + 1) as u32,
        ),
        sum_counts(final(counts)@) == sum_counts(old(counts)@) + 1,
{
    match find_key(counts, account) {
        Some(i) => {
            proof {
                lemma_assoc_index(counts@, i as int);
            }
            let v = counts[i].1;
            proof {
                lemma_assoc_update(counts@, i as int, (v + 1) as u32);
                lemma_sum_counts_update(counts@, i as int, (v + 1) as u32);
            }
            let key = counts[i].0;
            counts.set(i, (key, v + 1));
        },
        None => {
            proof {
                lemma_assoc_contains(counts@, *account);
                lemma_assoc_push(counts@, *account, 1u32);
                assert(counts@.push((*account, 1u32)).drop_last() =~= counts@);
            }
            counts.push((*account, 1));
        },
    }
}

/// Lower an account's recorded balance by one.  A missing record or a
/// balance already at zero is a defect signal; it cannot arise while the
/// ledger is well formed, and the arm is kept only as a guard.
fn decrease_count(counts: &mut Vec<(AccountId, u32)>, account: &AccountId) -> (r: Result<
    (),
    Error,
>)
    requires
        unique_keys(old(counts)@),
        balance_in(old(counts)@, *account) >= 1,
    ensures
        unique_keys(final(counts)@),
        r is Ok,
        assoc_map(final(counts)@) == assoc_map(old(counts)@).insert(
            *account,
            (balance_in(old(counts)@, *account) - 1) as u32,
        ),
        sum_counts(final(counts)@) == sum_counts(old(counts)@) - 1,
{
    match find_key(counts, account) {
        Some(i) => {
            proof {
                lemma_assoc_index(counts@, i as int);
            }
            let v = counts[i].1;
            if v == 0 {
                proof {
                    assert(false);
                }
                return Err(Error::ValueNotFound);
            }
            proof {
                lemma_assoc_update(counts@, i as int, (v - 1) as u32);
                lemma_sum_counts_update(counts@, i as int, (v - 1) as u32);
            }
            let key = counts[i].0;
            counts.set(i, (key, v - 1));
            Ok(())
        },
        None => {
            proof {
                lemma_assoc_contains(counts@, *account);
                assert(false);
            }
            Err(Error::ValueNotFound)
        },
    }
}

impl PokeNFT {
    /// Create the token for a seed that has no owner yet, assign its species
    /// from the seed alone, and give it to the caller.  Any caller may mint
    /// any not-yet-existing seed; the zero account may not own tokens.
    pub fn mint(&mut self, seed: Seed, caller: AccountId) -> (r: Result<(), Error>)
        requires
            old(self).wf(),
            old(self).spec_balance_of(caller) < u32::MAX,
        ensures
            final(self).wf(),
            (match r {
                Ok(()) => !old(self).spec_exists(seed) && !is_zero(caller) && final(self).owners_map()
                    == old(self).owners_map().insert(
                    seed,
                    (caller, rng::spec_sample(seed@) as PokemonId),
                ) && final(self).spec_owner_of(seed) == Some(caller) && final(self).spec_pokemon_of(seed)
                    == Some((rng::spec_sample(seed@) as PokemonId)) && final(self).spec_balance_of(caller)
                    == old(self).spec_balance_of(caller) + 1 && (forall|a: AccountId|
                    a != caller ==> final(self).spec_balance_of(a) == old(self).spec_balance_of(a))
                    && final(self).approved_map() == old(self).approved_map() && final(self).operators_map()
                    == old(self).operators_map() && final(self).events_log() == old(self).events_log().push(
                    Event::Transfer(Transfer { seed, from: None, to: Some(caller) }),
                ),
                Err(e) => *final(self) == *old(self) && (if old(self).spec_exists(seed) {
                    e == Error::TokenAlreadyExists
                } else {
                    e == Error::NotAllowed && is_zero(caller)
                }),
            }),
    {
        let id: PokemonId = match rng::sample(seed) {
            Ok(id) => id,
            Err(_) => {
                proof {
                    assert(false);
                }
                return Err(Error::InvalidSeed);
            },
        };
        match find_key(&self.owners, &seed) {
            Some(i) => {
                proof {
                    lemma_assoc_contains(self.owners@, seed);
                }
                return Err(Error::TokenAlreadyExists);
            },
            None => {
                proof {
                    lemma_assoc_contains(self.owners@, seed);
                }
            },
        }
        if check_zero(&caller) {
            return Err(Error::NotAllowed);
        }
        proof {
            lemma_assoc_push(self.owners@, seed, (caller, id));
            assert(self.owners@.push((seed, (caller, id))).drop_last() =~= self.owners@);
        }
        let ghost pre = *self;
        self.owners.push((seed, (caller, id)));
        increase_count(&mut self.counts, &caller);
        self.events.push(Event::Transfer(Transfer { seed, from: None, to: Some(caller) }));
        proof {
            assert forall|a: AccountId| #![auto]
                self.spec_balance_of(a) == owned_count(self.owners@, a) by {
                lemma_owned_count_push(pre.owners@, (seed, (caller, id)), a);
                assert(pre.spec_balance_of(a) == owned_count(pre.owners@, a));
                assert(self.owners@ == pre.owners@.push((seed, (caller, id))));
                assert(self.counts_map() == pre.counts_map().insert(
                    caller,
                    (balance_in(pre.counts@, caller) + 1) as u32,
                ));
                if a == caller {
                    assert(self.spec_balance_of(a) == pre.spec_balance_of(a) + 1);
                } else {
                    assert(self.spec_balance_of(a) == pre.spec_balance_of(a));
                }
            }
            assert forall|i: int| 0 <= i < self.owners@.len() implies !is_zero(
                #[trigger] self.owners@[i].1.0,
            ) by {
                if i < pre.owners@.len() {
                    assert(self.owners@[i] == pre.owners@[i]);
                }
            }
            assert forall|i: int| 0 <= i < self.approved@.len() implies self.owners_map(
            ).contains_key(#[trigger] self.approved@[i].0) by {
                assert(pre.owners_map().contains_key(self.approved@[i].0));
            }
        }
        Ok(())
    }
}

impl PokeNFT {
    /// Whether a token with this seed exists.
    fn token_exists(&self, seed: Seed) -> (r: bool)
        requires
            self.wf(),
        ensures
            r == self.spec_exists(seed),
    {
        match find_key(&self.owners, &seed) {
            Some(i) => {
                proof {
                    lemma_assoc_index(self.owners@, i as int);
                }
                true
            },
            None => {
                proof {
                    lemma_assoc_contains(self.owners@, seed);
                }
                false
            },
        }
    }

    /// Fail with `TokenNotFound` unless the token exists.
    fn assert_exists(&self, seed: Seed) -> (r: Result<(), Error>)
        requires
            self.wf(),
        ensures
            (match r {
                Ok(()) => self.spec_exists(seed),
                Err(e) => e == Error::TokenNotFound && !self.spec_exists(seed),
            }),
    {
        if !self.token_exists(seed) {
            return Err(Error::TokenNotFound);
        }
        Ok(())
    }

    /// Fail with `InvalidAddress` when the account is the zero sentinel.
    fn assert_valid_account(&self, account: &AccountId) -> (r: Result<(), Error>)
        ensures
            (match r {
                Ok(()) => !is_zero(*account),
                Err(e) => e == Error::InvalidAddress && is_zero(*account),
            }),
    {
        if check_zero(account) {
            return Err(Error::InvalidAddress);
        }
        Ok(())
    }

    /// Fail with `NotAllowed` unless the caller is authorized for the token.
    fn assert_owner_or_approved(&self, seed: Seed, caller: AccountId) -> (r: Result<(), Error>)
        requires
            self.wf(),
            self.spec_exists(seed),
        ensures
            (match r {
                Ok(()) => self.spec_is_authorized(caller, seed),
                Err(e) => e == Error::NotAllowed && !self.spec_is_authorized(caller, seed),
            }),
    {
        let owner = match self.owner_of(seed) {
            Some(o) => o,
            None => {
                proof {
                    assert(false);
                }
                return Err(Error::NotAllowed);
            },
        };
        let delegated = match self.get_approved(seed) {
            Some(x) => bytes_eq(&x, &caller),
            None => false,
        };
        if bytes_eq(&owner, &caller) || delegated || self.is_approved_for_all(owner, caller) {
            Ok(())
        } else {
            Err(Error::NotAllowed)
        }
    }

    /// Everything a transfer of `seed` from `from` to `to` on behalf of
    /// `caller` demands of the current state.
    pub open spec fn spec_transfer_allowed(
        &self,
        from: AccountId,
        to: AccountId,
        seed: Seed,
        caller: AccountId,
    ) -> bool {
        &&& self.spec_exists(seed)
        &&& self.spec_is_authorized(caller, seed)
        &&& !is_zero(to)
        &&& self.spec_owner_of(seed) == Some(from)
    }

    /// Which error a disallowed transfer reports: a missing token first, an
    /// unauthorized caller next, the zero target next, and a `from` that is
    /// not the recorded owner last.
    pub open spec fn spec_transfer_error(
        &self,
        from: AccountId,
        to: AccountId,
        seed: Seed,
        caller: AccountId,
    ) -> Error {
        if !self.spec_exists(seed) {
            Error::TokenNotFound
        } else if !self.spec_is_authorized(caller, seed) {
            Error::NotAllowed
        } else if is_zero(to) {
            Error::InvalidAddress
        } else {
            Error::NotAllowed
        }
    }

    /// How a completed transfer relates the new state to the old: ownership
    /// moved with the species kept, the delegate cleared, one unit of balance
    /// moved from `from` to `to`, operators untouched, and the cleared
    /// delegate (if any) and the move reported in order.
    pub open spec fn spec_transfer_effect(
        &self,
        post: Self,
        from: AccountId,
        to: AccountId,
        seed: Seed,
    ) -> bool {
        &&& post.owners_map() == self.owners_map().insert(seed, (to, self.owners_map()[seed].1))
        &&& post.spec_owner_of(seed) == Some(to)
        &&& post.spec_pokemon_of(seed) == self.spec_pokemon_of(seed)
        &&& post.approved_map() == self.approved_map().remove(seed)
        &&& post.spec_get_approved(seed) == None::<AccountId>
        &&& post.operators_map() == self.operators_map()
        &&& (from != to ==> post.spec_balance_of(from) == self.spec_balance_of(from) - 1)
        &&& (from != to ==> post.spec_balance_of(to) == self.spec_balance_of(to) + 1)
        &&& (from == to ==> post.spec_balance_of(from) == self.spec_balance_of(from))
        &&& (forall|a: AccountId|
            a != from && a != to ==> post.spec_balance_of(a) == self.spec_balance_of(a))
        &&& post.events_log() == self.events_log() + (if self.spec_get_approved(seed) is Some {
            seq![
                Event::Approval(Approval { seed, account: None }),
                Event::Transfer(Transfer { seed, from: Some(from), to: Some(to) }),
            ]
        } else {
            seq![Event::Transfer(Transfer { seed, from: Some(from), to: Some(to) })]
        })
    }

    /// The shared body of `transfer` and `transfer_from`.
    fn impl_transfer_from(
        &mut self,
        from: &AccountId,
        to: &AccountId,
        seed: Seed,
        caller: AccountId,
    ) -> (r: Result<(), Error>)
        requires
            old(self).wf(),
            old(self).spec_balance_of(*to) < u32::MAX,
        ensures
            final(self).wf(),
            (match r {
                Ok(()) => old(self).spec_transfer_allowed(*from, *to, seed, caller) && old(self).spec_transfer_effect(*final(self), *from, *to, seed),
                Err(e) => *final(self) == *old(self) && !old(self).spec_transfer_allowed(
                    *from,
                    *to,
                    seed,
                    caller,
                ) && e == old(self).spec_transfer_error(*from, *to, seed, caller),
            }),
    {
        let oi = match find_key(&self.owners, &seed) {
            None => {
                proof {
                    lemma_assoc_contains(self.owners@, seed);
                }
                return Err(Error::TokenNotFound);
            },
            Some(i) => {
                proof {
                    lemma_assoc_index(self.owners@, i as int);
                }
                i
            },
        };
        match self.assert_owner_or_approved(seed, caller) {
            Err(e) => {
                return Err(e);
            },
            Ok(()) => {},
        }
        match self.assert_valid_account(to) {
            Err(e) => {
                return Err(e);
            },
            Ok(()) => {},
        }
        let owner = self.owners[oi].1.0;
        if !bytes_eq(&owner, from) {
            return Err(Error::NotAllowed);
        }
        let species = self.owners[oi].1.1;
        let ghost pre = *self;
        match find_key(&self.approved, &seed) {
            Some(ai) => {
                proof {
                    lemma_assoc_index(self.approved@, ai as int);
                    lemma_assoc_remove(self.approved@, ai as int);
                }
                self.approved.remove(ai);
                self.events.push(Event::Approval(Approval { seed, account: None }));
            },
            None => {
                proof {
                    lemma_assoc_contains(self.approved@, seed);
                    assert(self.approved_map().remove(seed) =~= self.approved_map());
                }
            },
        }
        proof {
            lemma_owned_count_at_least_one(pre.owners@, oi as int, *from);
            assert(pre.spec_balance_of(*from) == owned_count(pre.owners@, *from));
        }
        match decrease_count(&mut self.counts, from) {
            Err(e) => {
                proof {
                    assert(false);
                }
                return Err(e);
            },
            Ok(()) => {},
        }
        proof {
            if *to == *from {
                assert(balance_in(self.counts@, *to) == pre.spec_balance_of(*from) - 1);
            } else {
                assert(balance_in(self.counts@, *to) == pre.spec_balance_of(*to));
            }
        }
        increase_count(&mut self.counts, to);
        proof {
            lemma_assoc_update(pre.owners@, oi as int, (*to, species));
        }
        self.owners.set(oi, (seed, (*to, species)));
        self.events.push(Event::Transfer(Transfer { seed, from: Some(*from), to: Some(*to) }));
        proof {
            let post = *self;
            assert(post.owners@ == pre.owners@.update(oi as int, (seed, (*to, species))));
            assert forall|a: AccountId| #![auto]
                post.spec_balance_of(a) == owned_count(post.owners@, a) by {
                lemma_owned_count_update(pre.owners@, oi as int, (*to, species), a);
                assert(pre.spec_balance_of(a) == owned_count(pre.owners@, a));
            }
            assert forall|i: int| 0 <= i < post.owners@.len() implies !is_zero(
                #[trigger] post.owners@[i].1.0,
            ) by {
                if i != oi as int {
                    assert(post.owners@[i] == pre.owners@[i]);
                }
            }
            assert forall|i: int| 0 <= i < post.approved@.len() implies !is_zero(
                #[trigger] post.approved@[i].1,
            ) && post.owners_map().contains_key(post.approved@[i].0) by {
                assert(post.owners_map().contains_key(post.approved@[i].0));
            }
            assert(post.events_log() =~= pre.events_log() + (
            if pre.spec_get_approved(seed) is Some {
                seq![
                    Event::Approval(Approval { seed, account: None }),
                    Event::Transfer(Transfer { seed, from: Some(*from), to: Some(*to) }),
                ]
            } else {
                seq![Event::Transfer(Transfer { seed, from: Some(*from), to: Some(*to) })]
            }));
        }
        Ok(())
    }

    /// Move a token of the caller's (or one the caller is delegate or
    /// operator for) to another account.
    pub fn transfer(&mut self, to: AccountId, seed: Seed, caller: AccountId) -> (r: Result<
        (),
        Error,
    >)
        requires
            old(self).wf(),
            old(self).spec_balance_of(to) < u32::MAX,
        ensures
            final(self).wf(),
            (match r {
                Ok(()) => old(self).spec_transfer_allowed(caller, to, seed, caller) && old(self).spec_transfer_effect(*final(self), caller, to, seed),
                Err(e) => *final(self) == *old(self) && !old(self).spec_transfer_allowed(
                    caller,
                    to,
                    seed,
                    caller,
                ) && e == old(self).spec_transfer_error(caller, to, seed, caller),
            }),
    {
        let from = caller;
        self.impl_transfer_from(&from, &to, seed, caller)
    }

    /// Move a token from its recorded owner `from` to `to`, on behalf of an
    /// authorized caller.  Ownership is the source of truth: a `from` that is
    /// not the recorded owner fails `NotAllowed`.
    pub fn transfer_from(
        &mut self,
        from: AccountId,
        to: AccountId,
        seed: Seed,
        caller: AccountId,
    ) -> (r: Result<(), Error>)
        requires
            old(self).wf(),
            old(self).spec_balance_of(to) < u32::MAX,
        ensures
            final(self).wf(),
            (match r {
                Ok(()) => old(self).spec_transfer_allowed(from, to, seed, caller) && old(self).spec_transfer_effect(*final(self), from, to, seed),
                Err(e) => *final(self) == *old(self) && !old(self).spec_transfer_allowed(
                    from,
                    to,
                    seed,
                    caller,
                ) && e == old(self).spec_transfer_error(from, to, seed, caller),
            }),
    {
        self.impl_transfer_from(&from, &to, seed, caller)
    }
}

impl PokeNFT {
    /// Record `approved` as the single delegate of an existing token, on
    /// behalf of an authorized caller; an earlier delegate is overwritten.
    pub fn approve(&mut self, approved: AccountId, seed: Seed, caller: AccountId) -> (r: Result<
        (),
        Error,
    >)
        requires
            old(self).wf(),
        ensures
            final(self).wf(),
            (match r {
                Ok(()) => old(self).spec_exists(seed) && !is_zero(approved) && old(self).spec_is_authorized(caller, seed) && final(self).approved_map() == old(self).approved_map().insert(seed, approved) && final(self).spec_get_approved(seed)
                    == Some(approved) && final(self).owners_map() == old(self).owners_map()
                    && final(self).counts_map() == old(self).counts_map() && final(self).operators_map() == old(self).operators_map() && final(self).events_log() == old(self).events_log().push(Event::Approval(Approval { seed, account: Some(approved) })),
                Err(e) => *final(self) == *old(self) && e == (if !old(self).spec_exists(seed) {
                    Error::TokenNotFound
                } else if is_zero(approved) {
                    Error::InvalidAddress
                } else {
                    Error::NotAllowed
                }) && !(old(self).spec_exists(seed) && !is_zero(approved) && old(self).spec_is_authorized(caller, seed)),
            }),
    {
        match self.assert_exists(seed) {
            Err(e) => {
                return Err(e);
            },
            Ok(()) => {},
        }
        match self.assert_valid_account(&approved) {
            Err(e) => {
                return Err(e);
            },
            Ok(()) => {},
        }
        match self.assert_owner_or_approved(seed, caller) {
            Err(e) => {
                return Err(e);
            },
            Ok(()) => {},
        }
        let ghost pre = *self;
        match find_key(&self.approved, &seed) {
            Some(i) => {
                proof {
                    lemma_assoc_update(self.approved@, i as int, approved);
                }
                self.approved.set(i, (seed, approved));
            },
            None => {
                proof {
                    lemma_assoc_contains(self.approved@, seed);
                    lemma_assoc_push(self.approved@, seed, approved);
                }
                self.approved.push((seed, approved));
            },
        }
        self.events.push(Event::Approval(Approval { seed, account: Some(approved) }));
        proof {
            assert forall|a: AccountId| #![auto]
                self.spec_balance_of(a) == owned_count(self.owners@, a) by {
                assert(pre.spec_balance_of(a) == owned_count(pre.owners@, a));
            }
            assert forall|i: int| 0 <= i < self.approved@.len() implies !is_zero(
                #[trigger] self.approved@[i].1,
            ) && self.owners_map().contains_key(self.approved@[i].0) by {
                if i < pre.approved@.len() && self.approved@[i] == pre.approved@[i] {
                } else {
                    assert(self.approved@[i].0 == seed && self.approved@[i].1 == approved);
                }
            }
        }
        Ok(())
    }

    /// Record or revoke `operator`'s right to act on all of the caller's
    /// tokens.  The zero account cannot be an operator, and no account can be
    /// its own operator.
    pub fn set_approval_for_all(
        &mut self,
        operator: AccountId,
        approval: bool,
        caller: AccountId,
    ) -> (r: Result<(), Error>)
        requires
            old(self).wf(),
        ensures
            final(self).wf(),
            (match r {
                Ok(()) => !is_zero(operator) && operator != caller && final(self).operators_map()
                    == old(self).operators_map().insert((caller, operator), approval) && final(self).spec_is_approved_for_all(caller, operator) == approval && final(self).owners_map() == old(self).owners_map() && final(self).counts_map() == old(self).counts_map() && final(self).approved_map() == old(self).approved_map() && final(self).events_log() == old(self).events_log(),
                Err(e) => *final(self) == *old(self) && e == (if is_zero(operator) {
                    Error::InvalidAddress
                } else {
                    Error::NotAllowed
                }) && (is_zero(operator) || operator == caller),
            }),
    {
        match self.assert_valid_account(&operator) {
            Err(e) => {
                return Err(e);
            },
            Ok(()) => {},
        }
        if bytes_eq(&operator, &caller) {
            return Err(Error::NotAllowed);
        }
        let ghost pre = *self;
        match find_pair_key(&self.operators, &caller, &operator) {
            Some(i) => {
                proof {
                    lemma_assoc_update(self.operators@, i as int, approval);
                }
                self.operators.set(i, ((caller, operator), approval));
            },
            None => {
                proof {
                    lemma_assoc_contains(self.operators@, (caller, operator));
                    lemma_assoc_push(self.operators@, (caller, operator), approval);
                }
                self.operators.push(((caller, operator), approval));
            },
        }
        proof {
            assert forall|a: AccountId| #![auto]
                self.spec_balance_of(a) == owned_count(self.owners@, a) by {
                assert(pre.spec_balance_of(a) == owned_count(pre.owners@, a));
            }
            assert forall|i: int| 0 <= i < self.operators@.len() implies !is_zero(
                #[trigger] self.operators@[i].0.1,
            ) && self.operators@[i].0.0 != self.operators@[i].0.1 by {
                if i < pre.operators@.len() && self.operators@[i] == pre.operators@[i] {
                } else {
                    assert(self.operators@[i].0 == (caller, operator));
                }
            }
        }
        Ok(())
    }

    /// Remove the token's delegate, on behalf of an authorized caller.  When
    /// no delegate is recorded the call succeeds as a no-op and reports
    /// nothing.
    pub fn clear_approval(&mut self, seed: Seed, caller: AccountId) -> (r: Result<(), Error>)
        requires
            old(self).wf(),
        ensures
            final(self).wf(),
            (match r {
                Ok(()) => old(self).spec_exists(seed) && old(self).spec_is_authorized(caller, seed)
                    && final(self).approved_map() == old(self).approved_map().remove(seed) && final(self).spec_get_approved(seed) == None::<AccountId> && final(self).owners_map() == old(self).owners_map() && final(self).counts_map() == old(self).counts_map() && final(self).operators_map() == old(self).operators_map() && final(self).events_log() == old(self).events_log() + (if old(self).spec_get_approved(seed) is Some {
                    seq![Event::Approval(Approval { seed, account: None })]
                } else {
                    Seq::<Event>::empty()
                }),
                Err(e) => *final(self) == *old(self) && e == (if !old(self).spec_exists(seed) {
                    Error::TokenNotFound
                } else {
                    Error::NotAllowed
                }) && !(old(self).spec_exists(seed) && old(self).spec_is_authorized(caller, seed)),
            }),
    {
        match self.assert_exists(seed) {
            Err(e) => {
                return Err(e);
            },
            Ok(()) => {},
        }
        match self.assert_owner_or_approved(seed, caller) {
            Err(e) => {
                return Err(e);
            },
            Ok(()) => {},
        }
        let ghost pre = *self;
        match find_key(&self.approved, &seed) {
            None => {
                proof {
                    lemma_assoc_contains(self.approved@, seed);
                    assert(self.approved_map().remove(seed) =~= self.approved_map());
                    assert(self.events_log() =~= pre.events_log() + Seq::<Event>::empty());
                    assert forall|a: AccountId| #![auto]
                        self.spec_balance_of(a) == owned_count(self.owners@, a) by {
                        assert(pre.spec_balance_of(a) == owned_count(pre.owners@, a));
                    }
                }
                Ok(())
            },
            Some(i) => {
                proof {
                    lemma_assoc_index(self.approved@, i as int);
                    lemma_assoc_remove(self.approved@, i as int);
                }
                self.approved.remove(i);
                self.events.push(Event::Approval(Approval { seed, account: None }));
                proof {
                    assert(self.events_log() =~= pre.events_log() + seq![
                        Event::Approval(Approval { seed, account: None }),
                    ]);
                    assert forall|a: AccountId| #![auto]
                        self.spec_balance_of(a) == owned_count(self.owners@, a) by {
                        assert(pre.spec_balance_of(a) == owned_count(pre.owners@, a));
                    }
                    assert forall|j: int| 0 <= j < self.approved@.len() implies !is_zero(
                        #[trigger] self.approved@[j].1,
                    ) && self.owners_map().contains_key(self.approved@[j].0) by {
                        if j < i as int {
                            assert(self.approved@[j] == pre.approved@[j]);
                        } else {
                            assert(self.approved@[j] == pre.approved@[j + 1]);
                        }
                    }
                }
                Ok(())
            },
        }
    }
}

/// The sum of the ledger's balances over a list of accounts.
pub open spec fn sum_balances(l: PokeNFT, accts: Seq<AccountId>) -> int
    decreases accts.len(),
{
    if accts.len() == 0 {
        0
    } else {
        sum_balances(l, accts.drop_last()) + l.spec_balance_of(accts.last())
    }
}

impl PokeNFT {
    /// The accounts the ledger keeps a balance record for.
    pub closed spec fn spec_accounts(&self) -> Seq<AccountId> {
        self.counts@.map_values(|e: (AccountId, u32)| e.0)
    }

    /// The balance entry list; spelled out for the summation lemmas.
    spec fn counts_entries(&self) -> Seq<(AccountId, u32)> {
        self.counts@
    }

    /// The owner entry list; spelled out for the cardinality lemma.
    spec fn owners_entries(&self) -> Seq<(Seed, (AccountId, PokemonId))> {
        self.owners@
    }
}

/// With unique keys, an entry list's map has one key per entry.
proof fn lemma_assoc_dom_len<K, V>(entries: Seq<(K, V)>)
    requires
        unique_keys(entries),
    ensures
        assoc_map(entries).dom().finite(),
        assoc_map(entries).dom().len() == entries.len(),
    decreases entries.len(),
{
    if entries.len() > 0 {
        lemma_assoc_dom_len(entries.drop_last());
        lemma_assoc_contains(entries.drop_last(), entries.last().0);
        assert(forall|j: int|
            0 <= j < entries.drop_last().len() ==> entries.drop_last()[j] == entries[j]);
        assert(!assoc_map(entries.drop_last()).contains_key(entries.last().0));
    }
}

/// Summing balances over the first `n` recorded accounts gives the sum of the
/// first `n` recorded balances.
proof fn lemma_sum_balances_prefix(l: &PokeNFT, n: int)
    requires
        l.wf(),
        0 <= n <= l.spec_accounts().len(),
    ensures
        sum_balances(*l, l.spec_accounts().take(n)) == sum_counts(l.counts_entries().take(n)),
    decreases n,
{
    let accts = l.spec_accounts();
    let entries = l.counts_entries();
    if n > 0 {
        lemma_sum_balances_prefix(l, n - 1);
        assert(accts.take(n).drop_last() =~= accts.take(n - 1));
        assert(entries.take(n).drop_last() =~= entries.take(n - 1));
        assert(accts.take(n).last() == entries[n - 1].0);
        assert(entries.take(n).last() == entries[n - 1]);
        lemma_assoc_index(entries, n - 1);
        assert(l.spec_balance_of(entries[n - 1].0) == entries[n - 1].1);
    } else {
        assert(accts.take(0).len() == 0);
        assert(entries.take(0).len() == 0);
    }
}

/// Balances cover the tokens exactly: every account outside the recorded
/// list has balance zero, no account is recorded twice, and the balances of
/// the recorded accounts sum to the number of existing tokens.
pub proof fn lemma_balances_cover_tokens(l: &PokeNFT)
    requires
        l.wf(),
    ensures
        l.spec_accounts().no_duplicates(),
        forall|a: AccountId| !l.spec_accounts().contains(a) ==> l.spec_balance_of(a) == 0,
        l.owners_map().dom().finite(),
        sum_balances(*l, l.spec_accounts()) == l.owners_map().dom().len(),
{
    let accts = l.spec_accounts();
    let entries = l.counts_entries();
    assert forall|i: int, j: int| 0 <= i < j < accts.len() implies accts[i] != accts[j] by {
        assert(entries[i].0 != entries[j].0);
    }
    assert forall|a: AccountId| !accts.contains(a) implies l.spec_balance_of(a) == 0 by {
        lemma_assoc_contains(entries, a);
        if l.spec_balance_of(a) != 0 {
            let i = choose|i: int| 0 <= i < entries.len() && entries[i].0 == a;
            assert(accts[i] == a);
        }
    }
    lemma_assoc_dom_len(l.owners_entries());
    lemma_sum_balances_prefix(l, entries.len() as int);
    assert(accts.take(accts.len() as int) =~= accts);
    assert(entries.take(entries.len() as int) =~= entries);
}

impl PokeNFT {
    /// A token's owner passes the authorization guard for it.
    pub proof fn lemma_owner_is_authorized(&self, seed: Seed, owner: AccountId)
        requires
            self.wf(),
            self.spec_owner_of(seed) == Some(owner),
        ensures
            self.spec_is_authorized(owner, seed),
    {
    }

    /// A token's recorded delegate passes the authorization guard for it.
    pub proof fn lemma_approved_is_authorized(&self, seed: Seed, delegate: AccountId)
        requires
            self.wf(),
            self.spec_get_approved(seed) == Some(delegate),
        ensures
            self.spec_exists(seed),
            self.spec_is_authorized(delegate, seed),
    {
        lemma_assoc_contains(self.approved@, seed);
        let i = choose|i: int| 0 <= i < self.approved@.len() && self.approved@[i].0 == seed;
        assert(self.owners_map().contains_key(self.approved@[i].0));
    }

    /// An operator for a token's owner passes the authorization guard for it.
    pub proof fn lemma_operator_is_authorized(
        &self,
        seed: Seed,
        owner: AccountId,
        operator: AccountId,
    )
        requires
            self.wf(),
            self.spec_owner_of(seed) == Some(owner),
            self.spec_is_approved_for_all(owner, operator),
        ensures
            self.spec_is_authorized(operator, seed),
    {
    }
}

} // verus!
