//! The ledger: the map of accounts, the transaction cache that remembers
//! each transaction's outcome, and the routing of one event between them.

use std::collections::HashMap;
use vstd::prelude::*;
use crate::account::Account;
use crate::account::AccountId;
use crate::tx::TxId;
use crate::account::AccountState;
use crate::account::in_money_range;
use crate::tx::incoming::IncomingTx;
use crate::tx::incoming::IncomingTxDetails;
use crate::tx::stored::TxState;
use crate::tx::stored::TxDetails;
use crate::tx::stored::spec_decode;
use crate::tx::stored::lemma_encode_decode_round_trip;

verus! {

broadcast use vstd::std_specs::hash::group_hash_axioms;

/// A failure of the cache backend. The volatile backend never fails; on the
/// durable one any failure is fatal for the whole run.
#[derive(Debug)]
pub enum TxCacheError {
    /// The backing store reported an error.
    Backend(kv::Error),
    /// A stored block did not decode back to a stored outcome.
    CorruptEntry,
}

/// Every outcome a cache hands out is well formed and keyed by the id of
/// its own transaction.
pub open spec fn cache_wf(m: Map<u32, TxDetails>) -> bool {
    forall|id: u32| #[trigger] m.contains_key(id) ==> m[id].wf() && m[id].original_tx.id.0 == id
}

/// What a read of `id` must return from a cache holding `m`.
pub open spec fn spec_cache_lookup(m: Map<u32, TxDetails>, id: TxId) -> Option<TxDetails> {
    if m.contains_key(id.0) {
        Some(m[id.0])
    } else {
        None
    }
}

/// The capability the ledger needs of a transaction cache: reads with no
/// side effect, and last-writer-wins stores, over one abstract map of
/// outcomes. A backend may fail; it may never hand back anything but what
/// was stored.
pub trait TxCache: Sized {
    /// The well-formed outcomes this cache holds, keyed by transaction id.
    spec fn cached(&self) -> Map<u32, TxDetails>;

    /// Whether this backend can fail at all. Reads and writes of an
    /// infallible backend always succeed, and a store keeps it infallible.
    /// The volatile backend is infallible; the durable one never claims to
    /// be, since the embedded store may fail on any call.
    spec fn infallible(&self) -> bool;

    /// What the cache holds is always well formed.
    proof fn lemma_cached_wf(&self)
        ensures
            cache_wf(self.cached()),
    ;

    /// Reads the outcome last stored for `id`, if any.
    fn get_by_id(&self, id: TxId) -> (r: Result<Option<TxDetails>, TxCacheError>)
        ensures
            r matches Ok(o) ==> o == spec_cache_lookup(self.cached(), id),
            self.infallible() ==> r is Ok,
    ;

    /// Stores `tx` as the outcome of its transaction, unconditionally
    /// overwriting any prior outcome under the same id.
    fn store(&mut self, tx: TxDetails) -> (r: Result<(), TxCacheError>)
        requires
            tx.wf(),
        ensures
            r is Ok ==> final(self).cached() == old(self).cached().insert(
                tx.original_tx.id.0,
                tx,
            ),
            old(self).infallible() ==> (r is Ok && final(self).infallible()),
    ;
}

/// The volatile backend: a process-local map, nothing persisted.
#[derive(Debug)]
pub struct InMemoryTxCache {
    tx_by_id: HashMap<u32, TxDetails>,
}

/// Whether a held outcome is the well-formed record of the transaction `id`.
fn entry_ok(d: &TxDetails, id: u32) -> (r: bool)
    ensures
        r == (d.wf() && d.original_tx.id.0 == id),
{
    let amount_ok = match d.original_tx.details {
        IncomingTxDetails::Deposit(m) => m.units >= 0,
        IncomingTxDetails::Withdrawal(m) => m.units >= 0,
        _ => false,
    };
    amount_ok && d.original_tx.id.0 == id
}

impl InMemoryTxCache {
    /// The well-formed entries of a raw map, keyed by their own id.
    pub closed spec fn spec_live(m: Map<u32, TxDetails>) -> Map<u32, TxDetails> {
        Map::new(
            |id: u32| m.contains_key(id) && m[id].wf() && m[id].original_tx.id.0 == id,
            |id: u32| m[id],
        )
    }
}

impl Default for InMemoryTxCache {
    /// A fresh volatile cache holds nothing.
    fn default() -> (r: Self)
        ensures
            r.cached() == Map::<u32, TxDetails>::empty(),
            r.infallible(),
    {
        let r = InMemoryTxCache { tx_by_id: HashMap::new() };
        proof {
            assert(r.cached() =~= Map::<u32, TxDetails>::empty());
        }
        r
    }
}

impl TxCache for InMemoryTxCache {
    closed spec fn cached(&self) -> Map<u32, TxDetails> {
        InMemoryTxCache::spec_live(self.tx_by_id@)
    }

    closed spec fn infallible(&self) -> bool {
        cache_wf(self.tx_by_id@)
    }

    proof fn lemma_cached_wf(&self) {
    }

    fn get_by_id(&self, id: TxId) -> (r: Result<Option<TxDetails>, TxCacheError>) {
        match self.tx_by_id.get(&id.0) {
            None => Ok(None),
            Some(d) => {
                if entry_ok(d, id.0) {
                    Ok(Some(*d))
                } else {
                    proof {
                        assert(self.tx_by_id@.contains_key(id.0));
                        assert(!cache_wf(self.tx_by_id@));
                    }
                    Err(TxCacheError::CorruptEntry)
                }
            },
        }
    }

    fn store(&mut self, tx: TxDetails) -> (r: Result<(), TxCacheError>) {
        self.tx_by_id.insert(tx.original_tx.id.0, tx);
        proof {
            assert(self.cached() =~= old(self).cached().insert(tx.original_tx.id.0, tx));
            if cache_wf(old(self).tx_by_id@) {
                assert(cache_wf(self.tx_by_id@)) by {
                    assert(forall|id: u32|
                        #[trigger] self.tx_by_id@.contains_key(id) && id != tx.original_tx.id.0
                            ==> old(self).tx_by_id@.contains_key(id) && self.tx_by_id@[id] == old(
                            self,
                        ).tx_by_id@[id]);
                }
            }
        }
        Ok(())
    }
}

#[verifier::external_type_specification]
#[verifier::external_body]
pub struct ExKvError(kv::Error);

/// An opened bucket of the embedded store. Held opaquely: only the trusted
/// reads and writes below look inside.
#[verifier::external_body]
pub struct DiskBucket {
    pub bucket: kv::Bucket<'static, kv::Integer, Vec<u8>>,
}

/// What the store's bucket maps each 32-bit integer key to.
pub uninterp spec fn bucket_contents(b: DiskBucket) -> Map<u32, Seq<u8>>;

/// Relies on kv::Bucket::get, a lookup in the embedded store: it returns
/// the bytes last set under the key, or nothing, or the store's error.
#[verifier::external_body]
fn bucket_get(b: &DiskBucket, id: u32) -> (r: Result<Option<Vec<u8>>, kv::Error>)
    ensures
        match r {
            Ok(Some(v)) => bucket_contents(*b).contains_key(id) && v@ == bucket_contents(*b)[id],
            Ok(None) => !bucket_contents(*b).contains_key(id),
            Err(_) => true,
        },
{
    b.bucket.get(&kv::Integer::from(id))
}

/// Relies on kv::Bucket::set, an insert into the embedded store: it maps
/// the key to the given bytes, replacing any prior value, or fails with the
/// store's error.
#[verifier::external_body]
fn bucket_set(b: &mut DiskBucket, id: u32, bytes: &Vec<u8>) -> (r: Result<(), kv::Error>)
    ensures
        match r {
            Ok(_) => bucket_contents(*final(b)) == bucket_contents(*old(b)).insert(id, bytes@),
            Err(_) => true,
        },
{
    match b.bucket.set(&kv::Integer::from(id), bytes) {
        Ok(_) => Ok(()),
        Err(e) => Err(e),
    }
}

/// The durable backend: outcomes written as explicit fixed-width blocks
/// into an embedded persistent key-value store.
pub struct OnDiskTxCache {
    bucket: DiskBucket,
}

/// The outcomes a bucket holds: the entries whose block decodes to the
/// stored outcome of their own key.
pub open spec fn disk_cached(c: Map<u32, Seq<u8>>) -> Map<u32, TxDetails> {
    Map::new(
        |id: u32| c.contains_key(id) && (match spec_decode(c[id]) {
            Some(d) => d.original_tx.id.0 == id,
            None => false,
        }),
        |id: u32| spec_decode(c[id]).unwrap(),
    )
}

impl OnDiskTxCache {
    /// A durable cache over an already-opened bucket of the store.
    pub fn new(bucket: DiskBucket) -> (r: OnDiskTxCache)
        ensures
            r.cached() == disk_cached(bucket_contents(bucket)),
    {
        OnDiskTxCache { bucket }
    }
}

impl TxCache for OnDiskTxCache {
    closed spec fn cached(&self) -> Map<u32, TxDetails> {
        disk_cached(bucket_contents(self.bucket))
    }

    closed spec fn infallible(&self) -> bool {
        false
    }

    proof fn lemma_cached_wf(&self) {
    }

    fn get_by_id(&self, id: TxId) -> (r: Result<Option<TxDetails>, TxCacheError>) {
        match bucket_get(&self.bucket, id.0) {
            Err(e) => Err(TxCacheError::Backend(e)),
            Ok(None) => Ok(None),
            Ok(Some(bytes)) => match TxDetails::decode(bytes.as_slice()) {
                None => Err(TxCacheError::CorruptEntry),
                Some(d) => {
                    if d.original_tx.id.0 == id.0 {
                        Ok(Some(d))
                    } else {
                        Err(TxCacheError::CorruptEntry)
                    }
                },
            },
        }
    }

    fn store(&mut self, tx: TxDetails) -> (r: Result<(), TxCacheError>) {
        let enc = tx.encode();
        let ghost id = tx.original_tx.id.0;
        match bucket_set(&mut self.bucket, tx.original_tx.id.0, &enc) {
            Ok(_) => {
                proof {
                    lemma_encode_decode_round_trip(tx);
                    assert(self.cached() =~= old(self).cached().insert(id, tx));
                }
                Ok(())
            },
            Err(e) => Err(TxCacheError::Backend(e)),
        }
    }
}

/// The account entries are strictly ordered by id, ascending.
pub open spec fn accounts_sorted(s: Seq<(AccountId, Account)>) -> bool {
    forall|i: int, j: int| 0 <= i < j < s.len() ==> s[i].0.0 < s[j].0.0
}

/// The mapping an entry list stands for.
pub open spec fn accounts_map(s: Seq<(AccountId, Account)>) -> Map<u16, Account>
    decreases s.len(),
{
    if s.len() == 0 {
        Map::empty()
    } else {
        accounts_map(s.drop_last()).insert(s.last().0.0, s.last().1)
    }
}

/// An id is in the mapping exactly when some entry carries it.
pub proof fn lemma_accounts_map_contains(s: Seq<(AccountId, Account)>, k: u16)
    ensures
        accounts_map(s).contains_key(k) <==> exists|i: int| 0 <= i < s.len() && s[i].0.0 == k,
    decreases s.len(),
{
    if s.len() > 0 {
        lemma_accounts_map_contains(s.drop_last(), k);
        if accounts_map(s).contains_key(k) {
            if s.last().0.0 == k {
                assert(s[s.len() - 1].0.0 == k);
            } else {
                let i = choose|i: int| 0 <= i < s.len() - 1 && s.drop_last()[i].0.0 == k;
                assert(s[i].0.0 == k);
            }
        }
        if exists|i: int| 0 <= i < s.len() && s[i].0.0 == k {
            let i = choose|i: int| 0 <= i < s.len() && s[i].0.0 == k;
            if i < s.len() - 1 {
                assert(s.drop_last()[i].0.0 == k);
            }
        }
    }
}

/// An entry with an id no other entry carries gives the mapping's value.
pub proof fn lemma_accounts_map_value(s: Seq<(AccountId, Account)>, i: int)
    requires
        0 <= i < s.len(),
        forall|j: int| 0 <= j < s.len() && j != i ==> s[j].0.0 != s[i].0.0,
    ensures
        accounts_map(s).contains_key(s[i].0.0),
        accounts_map(s)[s[i].0.0] == s[i].1,
    decreases s.len(),
{
    if i == s.len() - 1 {
        lemma_accounts_map_contains(s, s[i].0.0);
    } else {
        assert(s.drop_last()[i] == s[i]);
        lemma_accounts_map_value(s.drop_last(), i);
        assert(s.last().0.0 != s[i].0.0);
    }
}

/// Inserting an entry under a fresh id anywhere in the list inserts it into
/// the mapping.
pub proof fn lemma_accounts_map_insert(s: Seq<(AccountId, Account)>, p: int, e: (
    AccountId,
    Account,
))
    requires
        0 <= p <= s.len(),
        forall|i: int| 0 <= i < s.len() ==> s[i].0.0 != e.0.0,
    ensures
        accounts_map(s.insert(p, e)) == accounts_map(s).insert(e.0.0, e.1),
    decreases s.len(),
{
    let s2 = s.insert(p, e);
    if p == s.len() {
        assert(s2.drop_last() =~= s);
        assert(s2.last() == e);
    } else {
        assert(s2.drop_last() =~= s.drop_last().insert(p, e));
        assert(s2.last() == s.last());
        assert(forall|i: int|
            0 <= i < s.len() - 1 ==> #[trigger] s.drop_last()[i].0.0 == s[i].0.0);
        lemma_accounts_map_insert(s.drop_last(), p, e);
        assert(s.last().0.0 != e.0.0);
        assert(accounts_map(s.drop_last()).insert(e.0.0, e.1).insert(
            s.last().0.0,
            s.last().1,
        ) =~= accounts_map(s.drop_last()).insert(s.last().0.0, s.last().1).insert(e.0.0, e.1));
    }
}

/// Replacing the account of an entry whose id no other entry carries
/// updates the mapping at that id.
pub proof fn lemma_accounts_map_update(s: Seq<(AccountId, Account)>, i: int, a: Account)
    requires
        0 <= i < s.len(),
        forall|j: int| 0 <= j < s.len() && j != i ==> s[j].0.0 != s[i].0.0,
    ensures
        accounts_map(s.update(i, (s[i].0, a))) == accounts_map(s).insert(s[i].0.0, a),
    decreases s.len(),
{
    let s2 = s.update(i, (s[i].0, a));
    if i == s.len() - 1 {
        assert(s2.drop_last() =~= s.drop_last());
        assert(accounts_map(s2) =~= accounts_map(s).insert(s[i].0.0, a));
    } else {
        assert(s2.drop_last() =~= s.drop_last().update(i, (s[i].0, a)));
        assert(s2.last() == s.last());
        assert(forall|j: int|
            0 <= j < s.len() - 1 ==> #[trigger] s.drop_last()[j].0.0 == s[j].0.0);
        assert(s.drop_last()[i] == s[i]);
        lemma_accounts_map_update(s.drop_last(), i, a);
        assert(s.last().0.0 != s[i].0.0);
        assert(accounts_map(s.drop_last()).insert(s[i].0.0, a).insert(
            s.last().0.0,
            s.last().1,
        ) =~= accounts_map(s.drop_last()).insert(s.last().0.0, s.last().1).insert(s[i].0.0, a));
    }
}

/// Finds the entry of account `id`, creating a fresh default one in order
/// if absent, and returns its position.
fn find_or_insert(accounts: &mut Vec<(AccountId, Account)>, id: AccountId) -> (idx: usize)
    requires
        accounts_sorted(old(accounts)@),
    ensures
        accounts_sorted(final(accounts)@),
        idx < final(accounts)@.len(),
        final(accounts)@[idx as int].0 == id,
        forall|j: int|
            0 <= j < final(accounts)@.len() && j != idx ==> final(accounts)@[j].0.0 != id.0,
        final(accounts)@[idx as int].1 == (if accounts_map(old(accounts)@).contains_key(id.0) {
            accounts_map(old(accounts)@)[id.0]
        } else {
            Account::spec_default()
        }),
        accounts_map(final(accounts)@) == accounts_map(old(accounts)@).insert(
            id.0,
            final(accounts)@[idx as int].1,
        ),
{
    let ghost s0 = accounts@;
    let mut i: usize = 0;
    loop
        invariant
            accounts@ == s0,
            accounts_sorted(s0),
            i <= s0.len(),
            forall|k: int| 0 <= k < i ==> s0[k].0.0 < id.0,
        ensures
            accounts@ == s0,
            i <= s0.len(),
            forall|k: int| 0 <= k < i ==> s0[k].0.0 < id.0,
            i < s0.len() ==> s0[i as int].0.0 >= id.0,
        decreases s0.len() - i,
    {
        if i >= accounts.len() {
            break;
        }
        let key = accounts[i].0;
        if key.0 >= id.0 {
            break;
        }
        i = i + 1;
    }
    proof {
        assert(forall|j: int| #![auto] i < j < s0.len() && i < s0.len() ==> s0[i as int].0.0 < s0[j].0.0);
    }
    if i < accounts.len() {
        let key = accounts[i].0;
        if key.0 == id.0 {
            proof {
                assert(forall|j: int| 0 <= j < s0.len() && j != i ==> s0[j].0.0 != id.0);
                lemma_accounts_map_value(s0, i as int);
                assert(accounts_map(s0).insert(id.0, s0[i as int].1) =~= accounts_map(s0));
                assert(s0[i as int].0 == id) by {
                    assert(s0[i as int].0.0 == id.0);
                }
            }
            return i;
        }
    }
    proof {
        lemma_accounts_map_contains(s0, id.0);
        assert(forall|j: int| 0 <= j < s0.len() ==> s0[j].0.0 != id.0);
    }
    accounts.insert(i, (id, Account::default()));
    proof {
        lemma_accounts_map_insert(s0, i as int, (id, Account::spec_default()));
        assert(accounts_sorted(accounts@)) by {
            assert(forall|k: int| 0 <= k < i ==> accounts@[k] == s0[k]);
            assert(forall|k: int|
                i < k < accounts@.len() ==> accounts@[k] == s0[k - 1]);
            assert(accounts@[i as int].0.0 == id.0);
        }
    }
    i
}

/// What one event does to the ledger: route it to its account (created
/// fresh if absent), decide by the account transition table against the
/// cached outcome of its transaction, and persist the new outcome, if any.
pub open spec fn spec_bank_step(
    accounts: Map<u16, Account>,
    cache: Map<u32, TxDetails>,
    tx: IncomingTx,
) -> (Account, Option<TxDetails>) {
    let acct = if accounts.contains_key(tx.account.0) {
        accounts[tx.account.0]
    } else {
        Account::spec_default()
    };
    acct.spec_apply(spec_cache_lookup(cache, tx.id), tx)
}

pub open spec fn spec_bank_apply(
    accounts: Map<u16, Account>,
    cache: Map<u32, TxDetails>,
    tx: IncomingTx,
) -> (Map<u16, Account>, Map<u32, TxDetails>) {
    let step = spec_bank_step(accounts, cache, tx);
    (
        accounts.insert(tx.account.0, step.0),
        match step.1 {
            Some(o) => cache.insert(tx.id.0, o),
            None => cache,
        },
    )
}

/// The ledger: owns the account map and the only handle to the transaction
/// cache, and routes each incoming event.
pub struct Bank<C: TxCache> {
    tx_cache: C,
    accounts: Vec<(AccountId, Account)>,
}

impl<C: TxCache> Bank<C> {
    /// The account entries stay strictly sorted by id.
    pub closed spec fn wf(&self) -> bool {
        accounts_sorted(self.accounts@)
    }

    /// The accounts the ledger holds, keyed by account id.
    pub closed spec fn spec_accounts(&self) -> Map<u16, Account> {
        accounts_map(self.accounts@)
    }

    /// The outcomes the ledger's cache holds, keyed by transaction id.
    pub closed spec fn spec_cached(&self) -> Map<u32, TxDetails> {
        self.tx_cache.cached()
    }

    /// Whether the ledger's cache backend can fail at all.
    pub closed spec fn infallible(&self) -> bool {
        self.tx_cache.infallible()
    }

    /// A ledger over the given cache, with no accounts yet.
    pub fn with_cache(tx_cache: C) -> (r: Bank<C>)
        ensures
            r.wf(),
            r.spec_accounts() == Map::<u16, Account>::empty(),
            r.spec_cached() == tx_cache.cached(),
            r.infallible() == tx_cache.infallible(),
    {
        Bank { tx_cache, accounts: Vec::new() }
    }

    /// Routes one event: fetches the account and the cached outcome of the
    /// event's transaction, applies the account transition table, and
    /// persists the new outcome, if any. A cache failure aborts the run;
    /// over an infallible backend the call always succeeds. Whatever the
    /// cache answered, the account the event routes to exists afterwards,
    /// no account is ever removed, and no other account is touched.
    pub fn apply_tx(&mut self, tx: IncomingTx) -> (r: Result<(), TxCacheError>)
        requires
            old(self).wf(),
            tx.wf(),
        ensures
            final(self).wf(),
            old(self).infallible() ==> (r is Ok && final(self).infallible()),
            final(self).spec_accounts().contains_key(tx.account.0),
            forall|a: u16| #[trigger]
                old(self).spec_accounts().contains_key(a)
                    ==> final(self).spec_accounts().contains_key(a),
            forall|a: u16|
                a != tx.account.0 ==> #[trigger] final(self).spec_accounts().contains_key(a)
                    == old(self).spec_accounts().contains_key(a),
            forall|a: u16|
                a != tx.account.0 && old(self).spec_accounts().contains_key(a)
                    ==> #[trigger] final(self).spec_accounts()[a]
                    == old(self).spec_accounts()[a],
            r is Ok ==> (final(self).spec_accounts(), final(self).spec_cached())
                == spec_bank_apply(
                old(self).spec_accounts(),
                old(self).spec_cached(),
                tx,
            ),
    {
        let idx = find_or_insert(&mut self.accounts, tx.account);
        let ghost s1 = self.accounts@;
        let prev = match self.tx_cache.get_by_id(tx.id) {
            Ok(p) => p,
            Err(e) => {
                return Err(e);
            },
        };
        proof {
            self.tx_cache.lemma_cached_wf();
        }
        let mut acct = self.accounts[idx].1;
        let outcome = match &prev {
            Some(p) => acct.apply_tx(Some(p), &tx),
            None => acct.apply_tx(None, &tx),
        };
        self.accounts[idx] = (tx.account, acct);
        proof {
            assert(s1.update(idx as int, (s1[idx as int].0, acct)) =~= self.accounts@);
            lemma_accounts_map_update(s1, idx as int, acct);
            assert(accounts_sorted(self.accounts@)) by {
                assert(forall|k: int|
                    0 <= k < s1.len() && k != idx ==> self.accounts@[k] == s1[k]);
            }
            assert(accounts_map(self.accounts@) =~= accounts_map(s1).insert(tx.account.0, acct));
            assert(accounts_map(s1).insert(tx.account.0, acct)
                =~= old(self).spec_accounts().insert(tx.account.0, acct));
        }
        match outcome {
            None => Ok(()),
            Some(o) => {
                match self.tx_cache.store(o) {
                    Ok(_) => Ok(()),
                    Err(e) => Err(e),
                }
            },
        }
    }

    /// Consumes the ledger and yields the final accounts, ordered by
    /// ascending account id for deterministic reporting.
    pub fn into_accounts(self) -> (r: Vec<(AccountId, Account)>)
        requires
            self.wf(),
        ensures
            accounts_sorted(r@),
            accounts_map(r@) == self.spec_accounts(),
    {
        self.accounts
    }
}

/// The ledger state after an ordered sequence of events, applied one at a
/// time.
pub open spec fn spec_bank_run(
    accounts: Map<u16, Account>,
    cache: Map<u32, TxDetails>,
    txs: Seq<IncomingTx>,
) -> (Map<u16, Account>, Map<u32, TxDetails>)
    decreases txs.len(),
{
    if txs.len() == 0 {
        (accounts, cache)
    } else {
        let step = spec_bank_apply(accounts, cache, txs[0]);
        spec_bank_run(step.0, step.1, txs.skip(1))
    }
}

/// Running one more event is applying it to the state the run reached.
pub proof fn lemma_bank_run_snoc(
    accounts: Map<u16, Account>,
    cache: Map<u32, TxDetails>,
    txs: Seq<IncomingTx>,
    tx: IncomingTx,
)
    ensures
        spec_bank_run(accounts, cache, txs.push(tx)) == ({
            let end = spec_bank_run(accounts, cache, txs);
            spec_bank_apply(end.0, end.1, tx)
        }),
    decreases txs.len(),
{
    if txs.len() == 0 {
        let step = spec_bank_apply(accounts, cache, tx);
        assert(txs.push(tx)[0] == tx);
        assert(txs.push(tx).skip(1) =~= Seq::<IncomingTx>::empty());
        assert(spec_bank_run(accounts, cache, txs.push(tx)) == spec_bank_run(
            step.0,
            step.1,
            Seq::<IncomingTx>::empty(),
        ));
        assert(spec_bank_run(step.0, step.1, Seq::<IncomingTx>::empty()) == (step.0, step.1));
        assert(spec_bank_run(accounts, cache, txs) == (accounts, cache));
        assert((step.0, step.1) == step);
    } else {
        assert(txs.push(tx)[0] == txs[0]);
        assert(txs.push(tx).skip(1) =~= txs.skip(1).push(tx));
        let step = spec_bank_apply(accounts, cache, txs[0]);
        assert(spec_bank_run(accounts, cache, txs.push(tx)) == spec_bank_run(
            step.0,
            step.1,
            txs.skip(1).push(tx),
        ));
        lemma_bank_run_snoc(step.0, step.1, txs.skip(1), tx);
        assert(spec_bank_run(accounts, cache, txs) == spec_bank_run(step.0, step.1, txs.skip(1)));
    }
}

/// Reading the cache twice with no intervening store gives equal answers:
/// what a read returns is a function of the cached map alone.
pub proof fn lemma_get_idempotent(
    m: Map<u32, TxDetails>,
    id: TxId,
    r1: Option<TxDetails>,
    r2: Option<TxDetails>,
)
    requires
        r1 == spec_cache_lookup(m, id),
        r2 == spec_cache_lookup(m, id),
    ensures
        r1 == r2,
{
}

pub open spec fn all_events_wf(txs: Seq<IncomingTx>) -> bool {
    forall|i: int| 0 <= i < txs.len() ==> #[trigger] txs[i].wf()
}

/// One event keeps the cache a map of well-formed outcomes, each keyed by
/// its own transaction: a fresh outcome records the event itself, and a
/// lifecycle transition keeps the original it found under the same id.
pub proof fn lemma_apply_preserves_cache_wf(
    accounts: Map<u16, Account>,
    cache: Map<u32, TxDetails>,
    tx: IncomingTx,
)
    requires
        cache_wf(cache),
        tx.wf(),
    ensures
        cache_wf(spec_bank_apply(accounts, cache, tx).1),
{
    let step = spec_bank_step(accounts, cache, tx);
    match step.1 {
        None => {},
        Some(o) => {
            assert(o.wf() && o.original_tx.id.0 == tx.id.0) by {
                if spec_cache_lookup(cache, tx.id) is Some {
                    assert(cache.contains_key(tx.id.0));
                }
            }
        },
    }
}

/// One event never removes a cached outcome, changes the cache only at the
/// transaction it references, and moves that entry only along the
/// transition table: a fresh outcome enters as Complete, and an existing
/// one steps from Complete to UnderDispute, or from UnderDispute to
/// Resolved or ChargedBack, keeping the original event it records.
pub proof fn lemma_apply_cache_transitions(
    accounts: Map<u16, Account>,
    cache: Map<u32, TxDetails>,
    tx: IncomingTx,
)
    ensures
        forall|id: u32| #[trigger] cache.contains_key(id) ==> spec_bank_apply(
            accounts,
            cache,
            tx,
        ).1.contains_key(id),
        ({
            let c2 = spec_bank_apply(accounts, cache, tx).1;
            forall|id: u32| #[trigger] c2.contains_key(id) ==> {
                ||| (cache.contains_key(id) && c2[id] == cache[id])
                ||| (id == tx.id.0 && !cache.contains_key(id) && c2[id] == (TxDetails {
                    original_tx: tx,
                    state: TxState::Complete,
                }))
                ||| (id == tx.id.0 && cache.contains_key(id) && c2[id].original_tx
                    == cache[id].original_tx && ((cache[id].state
                    == TxState::Complete && c2[id].state
                    == TxState::UnderDispute) || (cache[id].state
                    == TxState::UnderDispute && (c2[id].state
                    == TxState::Resolved || c2[id].state
                    == TxState::ChargedBack))))
            }
        }),
{
    let step = spec_bank_step(accounts, cache, tx);
    let c2 = spec_bank_apply(accounts, cache, tx).1;
    match step.1 {
        None => {},
        Some(o) => {
            let prev = spec_cache_lookup(cache, tx.id);
            assert(c2 == cache.insert(tx.id.0, o));
            match prev {
                None => {
                    assert(o == (TxDetails {
                        original_tx: tx,
                        state: TxState::Complete,
                    }));
                },
                Some(p) => {
                    assert(cache.contains_key(tx.id.0) && p == cache[tx.id.0]);
                    assert(o.original_tx == p.original_tx);
                },
            }
        },
    }
}

/// After any sequence of events the cache still holds at most one
/// well-formed outcome per transaction id.
pub proof fn lemma_run_preserves_cache_wf(
    accounts: Map<u16, Account>,
    cache: Map<u32, TxDetails>,
    txs: Seq<IncomingTx>,
)
    requires
        cache_wf(cache),
        all_events_wf(txs),
    ensures
        cache_wf(spec_bank_run(accounts, cache, txs).1),
    decreases txs.len(),
{
    if txs.len() > 0 {
        lemma_apply_preserves_cache_wf(accounts, cache, txs[0]);
        let step = spec_bank_apply(accounts, cache, txs[0]);
        assert(all_events_wf(txs.skip(1))) by {
            assert(forall|i: int|
                0 <= i < txs.skip(1).len() ==> txs.skip(1)[i] == txs[i + 1]);
        }
        lemma_run_preserves_cache_wf(step.0, step.1, txs.skip(1));
    }
}

/// Whether every event only moves funds: deposits and withdrawals, no
/// dispute lifecycle.
pub open spec fn only_funds_events(txs: Seq<IncomingTx>) -> bool {
    forall|i: int|
        0 <= i < txs.len() ==> (#[trigger] txs[i].details is Deposit || txs[i].details
            is Withdrawal)
}

/// The sum account `a` gains over the run: each applied event contributes
/// its signed effect, and a declined one contributes nothing.
pub open spec fn spec_applied_sum(
    accounts: Map<u16, Account>,
    cache: Map<u32, TxDetails>,
    txs: Seq<IncomingTx>,
    a: u16,
) -> int
    decreases txs.len(),
{
    if txs.len() == 0 {
        0
    } else {
        let tx = txs[0];
        let step = spec_bank_step(accounts, cache, tx);
        let nxt = spec_bank_apply(accounts, cache, tx);
        (if tx.account.0 == a && step.1 is Some {
            match tx.details.spec_balance_effect() {
                Some(e) => e,
                None => 0,
            }
        } else {
            0
        }) + spec_applied_sum(nxt.0, nxt.1, txs.skip(1), a)
    }
}

/// Balance conservation: over funds-moving events alone, an account's
/// balance moves by exactly the sum of its applied deposits and
/// withdrawals — a declined event, such as a withdrawal past the balance,
/// contributes nothing — and its held funds and frozen flag never change.
pub proof fn lemma_balance_conservation(
    accounts: Map<u16, Account>,
    cache: Map<u32, TxDetails>,
    txs: Seq<IncomingTx>,
    a: u16,
)
    requires
        only_funds_events(txs),
        all_events_wf(txs),
    ensures
        ({
            let end = spec_bank_run(accounts, cache, txs);
            let before = if accounts.contains_key(a) {
                accounts[a]
            } else {
                Account::spec_default()
            };
            let after = if end.0.contains_key(a) {
                end.0[a]
            } else {
                Account::spec_default()
            };
            &&& after.balance@ == before.balance@ + spec_applied_sum(accounts, cache, txs, a)
            &&& after.held == before.held
            &&& after.state == before.state
        }),
    decreases txs.len(),
{
    if txs.len() > 0 {
        let tx = txs[0];
        let step = spec_bank_step(accounts, cache, tx);
        let nxt = spec_bank_apply(accounts, cache, tx);
        assert(only_funds_events(txs.skip(1)) && all_events_wf(txs.skip(1))) by {
            assert(forall|i: int|
                0 <= i < txs.skip(1).len() ==> txs.skip(1)[i] == txs[i + 1]);
        }
        lemma_balance_conservation(nxt.0, nxt.1, txs.skip(1), a);
        assert(tx.wf());
        assert(tx.details is Deposit || tx.details is Withdrawal);
        let delta: int = if tx.account.0 == a && step.1 is Some {
            match tx.details.spec_balance_effect() {
                Some(e) => e,
                None => 0,
            }
        } else {
            0
        };
        assert(spec_applied_sum(accounts, cache, txs, a) == delta + spec_applied_sum(
            nxt.0,
            nxt.1,
            txs.skip(1),
            a,
        ));
        assert(spec_bank_run(accounts, cache, txs) == spec_bank_run(nxt.0, nxt.1, txs.skip(1)));
        let before = if accounts.contains_key(a) {
            accounts[a]
        } else {
            Account::spec_default()
        };
        let mid = if nxt.0.contains_key(a) {
            nxt.0[a]
        } else {
            Account::spec_default()
        };
        if tx.account.0 == a {
            assert(mid == step.0);
            let prev = spec_cache_lookup(cache, tx.id);
            match (prev, tx.details) {
                (None, IncomingTxDetails::Deposit(m)) => {
                    if before.state == AccountState::Frozen {
                        assert(step.1 is None);
                    } else if !in_money_range(before.balance@ + m@) {
                        assert(step.1 is None);
                    } else {
                        assert(step.0.balance@ == before.balance@ + m@);
                        assert(delta == m@);
                    }
                },
                (None, IncomingTxDetails::Withdrawal(m)) => {
                    if before.state == AccountState::Frozen {
                        assert(step.1 is None);
                    } else if before.balance@ < m@ {
                        assert(step.1 is None);
                    } else {
                        assert(step.0.balance@ == before.balance@ - m@);
                        assert(delta == -m@);
                    }
                },
                (Some(_), _) => {
                    assert(step.0 == before && step.1 is None);
                },
                _ => {},
            }
            assert(mid.balance@ == before.balance@ + delta);
            assert(mid.held == before.held);
            assert(mid.state == before.state);
        } else {
            assert(mid == before);
            assert(delta == 0);
        }
    }
}

impl Default for Bank<InMemoryTxCache> {
    /// A fresh ledger: volatile cache, no accounts.
    fn default() -> (r: Self)
        ensures
            r.wf(),
            r.spec_accounts() == Map::<u16, Account>::empty(),
            r.spec_cached() == Map::<u32, TxDetails>::empty(),
            r.infallible(),
    {
        Bank::with_cache(InMemoryTxCache::default())
    }
}

} // verus!
