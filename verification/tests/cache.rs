use nesse_bank::account::AccountId;
use nesse_bank::bank::Bank;
use nesse_bank::bank::DiskBucket;
use nesse_bank::bank::InMemoryTxCache;
use nesse_bank::bank::OnDiskTxCache;
use nesse_bank::bank::TxCache;
use nesse_bank::money::Money;
use nesse_bank::tx::TxId;
use nesse_bank::tx::incoming::IncomingTx;
use nesse_bank::tx::stored::TxDetails;
use nesse_bank::tx::stored::TxState;
use nesse_bank::util::historic_run;
use nesse_bank::util::state_rows;

fn outcome(tx: u32, acct: u16, amount: &str, state: TxState) -> TxDetails {
    TxDetails {
        original_tx: IncomingTx::deposit(TxId(tx), AccountId(acct), amount).unwrap(),
        state,
    }
}

#[test]
fn tx_details_to_raw_and_back() {
    let original = TxDetails {
        original_tx: IncomingTx::deposit(TxId(123), AccountId(456), "789.1112").unwrap(),
        state: TxState::Complete,
    };

    let raw = original.encode();
    assert_eq!(raw.len(), 16);

    let recovered = TxDetails::decode(raw.as_slice()).unwrap();
    assert_eq!(recovered, original);
}

#[test]
fn withdrawal_outcome_round_trips() {
    let original = TxDetails {
        original_tx: IncomingTx::withdrawal(TxId(9), AccountId(2), "0.0001").unwrap(),
        state: TxState::ChargedBack,
    };
    let recovered = TxDetails::decode(original.encode().as_slice()).unwrap();
    assert_eq!(recovered, original);
}

#[test]
fn decode_rejects_foreign_bytes() {
    assert_eq!(TxDetails::decode(&[]), None);
    assert_eq!(TxDetails::decode(&[0u8; 15]), None);
    assert_eq!(TxDetails::decode(&[0xffu8; 16]), None);
}

#[test]
fn get_is_idempotent_without_store() {
    let mut cache = InMemoryTxCache::default();
    cache.store(outcome(1, 1, "2.5", TxState::Complete)).unwrap();
    let first = cache.get_by_id(TxId(1)).unwrap();
    let second = cache.get_by_id(TxId(1)).unwrap();
    assert_eq!(first, second);
    assert_eq!(first, Some(outcome(1, 1, "2.5", TxState::Complete)));
}

#[test]
fn store_overwrites_prior_outcome() {
    let mut cache = InMemoryTxCache::default();
    cache.store(outcome(1, 1, "2.5", TxState::Complete)).unwrap();
    cache.store(outcome(1, 1, "2.5", TxState::UnderDispute)).unwrap();
    assert_eq!(
        cache.get_by_id(TxId(1)).unwrap(),
        Some(outcome(1, 1, "2.5", TxState::UnderDispute))
    );
}

fn open_disk_cache(dir: &tempdir::TempDir) -> OnDiskTxCache {
    let store = kv::Store::new(kv::Config::new(dir.path())).unwrap();
    let bucket = store.bucket::<kv::Integer, Vec<u8>>(Some("tx")).unwrap();
    OnDiskTxCache::new(DiskBucket { bucket })
}

#[test]
fn disk_cache_round_trip() {
    let dir = tempdir::TempDir::new("ledger-cache-test").unwrap();
    let mut cache = open_disk_cache(&dir);
    assert_eq!(cache.get_by_id(TxId(7)).unwrap(), None);
    let d = outcome(7, 1, "1.25", TxState::UnderDispute);
    cache.store(d).unwrap();
    assert_eq!(cache.get_by_id(TxId(7)).unwrap(), Some(d));
    assert_eq!(cache.get_by_id(TxId(8)).unwrap(), None);
    dir.close().unwrap();
}

#[test]
fn disk_backend_matches_volatile_backend() {
    let input: &[u8] = b"type, client, tx, amount\n\
        deposit, 1, 1, 5\n\
        deposit, 2, 2, 2\n\
        withdrawal, 1, 3, 1.5\n\
        dispute, 2, 2\n\
        chargeback, 2, 2\n";
    let dir = tempdir::TempDir::new("ledger-run-test").unwrap();
    let on_disk = historic_run(input, open_disk_cache(&dir)).unwrap();
    let in_memory = historic_run(input, InMemoryTxCache::default()).unwrap();
    assert_eq!(
        state_rows(&on_disk.into_accounts()),
        state_rows(&in_memory.into_accounts())
    );
    dir.close().unwrap();
}

#[test]
fn ledger_over_disk_cache_applies_events() {
    let dir = tempdir::TempDir::new("ledger-bank-test").unwrap();
    let mut bank = Bank::with_cache(open_disk_cache(&dir));
    bank.apply_tx(IncomingTx::deposit(TxId(1), AccountId(1), "3").unwrap()).unwrap();
    bank.apply_tx(IncomingTx::dispute(TxId(1), AccountId(1))).unwrap();
    let accounts = bank.into_accounts();
    assert_eq!(accounts[0].1.balance, Money::from_units(0));
    assert_eq!(accounts[0].1.held, Money::from_units(30_000));
    dir.close().unwrap();
}
