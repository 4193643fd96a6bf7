//! Whole runs: replaying a CSV input against a fresh ledger, and building
//! the final report rows.

use vstd::prelude::*;
use vstd::string::StringExecFns;
use crate::account::Account;
use crate::account::AccountId;
use crate::account::AccountState;
use crate::bank::Bank;
use crate::bank::InMemoryTxCache;
use crate::bank::TxCache;
use crate::bank::TxCacheError;
use crate::bank::spec_bank_run;
use crate::bank::lemma_bank_run_snoc;
use crate::digits::append_number;
use crate::digits::spec_digits;
use crate::io::ParseError;
use crate::io::csv_reader;
use crate::io::csv_records;
use crate::io::spec_parse_record;
use crate::io::spec_skip_record;
use crate::io::spec_record_error;
use crate::money::append_money_chars;
use crate::money::spec_money_chars;
use crate::tx::incoming::IncomingTx;

verus! {

/// Why a whole run failed.
#[derive(Debug)]
pub enum HistoricRunError {
    /// A record was malformed; the run aborts at the first such record.
    ParseError(ParseError),
    /// The cache backend failed; fatal for the run.
    Cache(TxCacheError),
}

/// The events a record list yields, in order: blank records are skipped,
/// and a malformed one makes the whole list malformed (`None`).
pub open spec fn spec_events_of(recs: Seq<Seq<Seq<char>>>) -> Option<Seq<IncomingTx>>
    decreases recs.len(),
{
    if recs.len() == 0 {
        Some(Seq::empty())
    } else if spec_skip_record(recs[0]) {
        spec_events_of(recs.skip(1))
    } else {
        match spec_parse_record(recs[0]) {
            None => None,
            Some(tx) => match spec_events_of(recs.skip(1)) {
                None => None,
                Some(rest) => Some(seq![tx] + rest),
            },
        }
    }
}

/// Where the replay stops early: the first malformed non-blank record, or
/// the end of the list.
pub open spec fn spec_run_end(recs: Seq<Seq<Seq<char>>>) -> int
    decreases recs.len(),
{
    if recs.len() == 0 {
        0
    } else if spec_skip_record(recs[0]) {
        1 + spec_run_end(recs.skip(1))
    } else if spec_parse_record(recs[0]) is None {
        0
    } else {
        1 + spec_run_end(recs.skip(1))
    }
}

/// A malformed non-blank record preceded only by records that are blank or
/// parse is where the replay stops.
proof fn lemma_run_end_at(recs: Seq<Seq<Seq<char>>>, p: int)
    requires
        0 <= p < recs.len(),
        forall|k: int|
            0 <= k < p ==> spec_skip_record(#[trigger] recs[k]) || spec_parse_record(recs[k])
                is Some,
        !spec_skip_record(recs[p]),
        spec_parse_record(recs[p]) is None,
    ensures
        spec_run_end(recs) == p,
    decreases p,
{
    if p > 0 {
        let tail = recs.skip(1);
        assert(forall|k: int| 0 <= k < tail.len() ==> tail[k] == recs[k + 1]);
        lemma_run_end_at(tail, p - 1);
    }
}

/// The events of the first `p` records: blank ones contribute nothing,
/// and each other one is assumed to parse.
pub open spec fn spec_events_upto(recs: Seq<Seq<Seq<char>>>, p: int) -> Seq<IncomingTx>
    decreases recs.len(),
{
    if p <= 0 || recs.len() == 0 {
        Seq::empty()
    } else if spec_skip_record(recs[0]) {
        spec_events_upto(recs.skip(1), p - 1)
    } else {
        seq![spec_parse_record(recs[0]).unwrap()] + spec_events_upto(recs.skip(1), p - 1)
    }
}

/// One more record appends its event, or nothing when it is blank.
proof fn lemma_events_upto_step(recs: Seq<Seq<Seq<char>>>, p: int)
    requires
        0 <= p < recs.len(),
    ensures
        spec_events_upto(recs, p + 1) == spec_events_upto(recs, p) + (if spec_skip_record(
            recs[p],
        ) {
            Seq::<IncomingTx>::empty()
        } else {
            seq![spec_parse_record(recs[p]).unwrap()]
        }),
    decreases p,
{
    let tail = recs.skip(1);
    assert(forall|k: int| 0 <= k < tail.len() ==> tail[k] == recs[k + 1]);
    if p == 0 {
        assert(spec_events_upto(recs, 0) =~= Seq::<IncomingTx>::empty());
        assert(spec_events_upto(tail, 0) =~= Seq::<IncomingTx>::empty());
    } else {
        lemma_events_upto_step(tail, p - 1);
    }
}

/// Where the first `p` records are each blank or parsing, the events of the
/// whole list are decided at `p`: at the end they are exactly the prefix's
/// events, and a malformed non-blank record there makes the list malformed.
proof fn lemma_events_of_upto(recs: Seq<Seq<Seq<char>>>, p: int)
    requires
        0 <= p <= recs.len(),
        forall|k: int|
            0 <= k < p ==> spec_skip_record(#[trigger] recs[k]) || spec_parse_record(recs[k])
                is Some,
    ensures
        p == recs.len() ==> spec_events_of(recs) == Some(spec_events_upto(recs, p)),
        (p < recs.len() && !spec_skip_record(recs[p]) && spec_parse_record(recs[p]) is None)
            ==> spec_events_of(recs) is None,
    decreases p,
{
    if p == 0 {
        if p == recs.len() {
            assert(spec_events_upto(recs, 0) =~= Seq::<IncomingTx>::empty());
        }
    } else {
        let tail = recs.skip(1);
        assert(forall|k: int| 0 <= k < tail.len() ==> tail[k] == recs[k + 1]);
        lemma_events_of_upto(tail, p - 1);
        if p == recs.len() {
            assert(spec_events_of(tail) == Some(spec_events_upto(tail, p - 1)));
            if !spec_skip_record(recs[0]) {
                assert(seq![spec_parse_record(recs[0]).unwrap()] + spec_events_upto(tail, p - 1)
                    == spec_events_upto(recs, p));
            }
        }
    }
}

/// Replays every event of the input, in order, against a fresh ledger over
/// the given cache. It aborts on the first malformed record, carrying that
/// record's own error, or on a cache failure, which an infallible backend
/// can never raise: over one, a decodable input is always replayed to the
/// end.
pub fn historic_run<C: TxCache>(input: &[u8], cache: C) -> (r: Result<Bank<C>, HistoricRunError>)
    ensures
        match r {
            Ok(bank) => {
                &&& bank.wf()
                &&& (csv_records(input@) matches Some(recs) && spec_events_of(recs) matches Some(
                    txs,
                ) && (bank.spec_accounts(), bank.spec_cached()) == spec_bank_run(
                    Map::<u16, Account>::empty(),
                    cache.cached(),
                    txs,
                ))
            },
            Err(HistoricRunError::ParseError(e)) => match csv_records(input@) {
                None => e matches ParseError::Csv(_),
                Some(recs) => spec_events_of(recs) is None && spec_record_error(
                    recs[spec_run_end(recs)],
                    e,
                ),
            },
            Err(HistoricRunError::Cache(_)) => !cache.infallible(),
        },
        cache.infallible() && (csv_records(input@) matches Some(recs) && spec_events_of(recs)
            is Some) ==> r is Ok,
{
    let mut it = match csv_reader(input) {
        Ok(it) => it,
        Err(e) => {
            return Err(HistoricRunError::ParseError(e));
        },
    };
    let ghost recs = it.spec_records();
    let ghost cache0 = cache.cached();
    let ghost inf0 = cache.infallible();
    let mut state = Bank::with_cache(cache);
    loop
        invariant_except_break
            forall|k: int|
                0 <= k < it.spec_pos() ==> spec_skip_record(#[trigger] recs[k])
                    || spec_parse_record(recs[k]) is Some,
            (state.spec_accounts(), state.spec_cached()) == spec_bank_run(
                Map::<u16, Account>::empty(),
                cache0,
                spec_events_upto(recs, it.spec_pos()),
            ),
        invariant
            state.wf(),
            it.spec_records() == recs,
            0 <= it.spec_pos() <= recs.len(),
            csv_records(input@) == Some(recs),
            inf0 == cache.infallible(),
            inf0 ==> state.infallible(),
        ensures
            state.wf(),
            forall|k: int|
                0 <= k < recs.len() ==> spec_skip_record(#[trigger] recs[k]) || spec_parse_record(
                    recs[k],
                ) is Some,
            (state.spec_accounts(), state.spec_cached()) == spec_bank_run(
                Map::<u16, Account>::empty(),
                cache0,
                spec_events_upto(recs, recs.len() as int),
            ),
        decreases recs.len() - it.spec_pos(),
    {
        let ghost p0 = it.spec_pos();
        let ghost q = crate::io::spec_next_live(recs, p0);
        proof {
            lemma_next_live_blanks(recs, p0);
        }
        match it.next() {
            None => {
                proof {
                    lemma_upto_blanks(recs, p0, recs.len() as int);
                }
                break;
            },
            Some(Err(e)) => {
                proof {
                    assert(q < recs.len());
                    assert(!spec_skip_record(recs[q]));
                    assert(spec_parse_record(recs[q]) is None);
                    lemma_events_of_upto(recs, q);
                    assert(spec_events_of(recs) is None);
                    lemma_run_end_at(recs, q);
                    assert(spec_record_error(recs[spec_run_end(recs)], e));
                }
                return Err(HistoricRunError::ParseError(e));
            },
            Some(Ok(tx)) => {
                proof {
                    lemma_upto_blanks(recs, p0, q);
                }
                let ghost pre = spec_events_upto(recs, q);
                match state.apply_tx(tx) {
                    Ok(_) => {},
                    Err(e) => {
                        proof {
                            assert(!inf0);
                        }
                        return Err(HistoricRunError::Cache(e));
                    },
                }
                proof {
                    lemma_bank_run_snoc(Map::<u16, Account>::empty(), cache0, pre, tx);
                    lemma_events_upto_step(recs, q);
                    assert(pre.push(tx) =~= spec_events_upto(recs, q + 1));
                }
            },
        }
    }
    proof {
        lemma_events_of_upto(recs, recs.len() as int);
    }
    Ok(state)
}

/// Every record between `p` and the next live one is blank.
proof fn lemma_next_live_blanks(recs: Seq<Seq<Seq<char>>>, p: int)
    requires
        0 <= p,
    ensures
        p <= crate::io::spec_next_live(recs, p),
        p <= recs.len() ==> crate::io::spec_next_live(recs, p) <= recs.len(),
        forall|k: int|
            p <= k < crate::io::spec_next_live(recs, p) ==> spec_skip_record(#[trigger] recs[k]),
        crate::io::spec_next_live(recs, p) < recs.len() ==> !spec_skip_record(
            recs[crate::io::spec_next_live(recs, p)],
        ),
    decreases recs.len() - p,
{
    if 0 <= p < recs.len() && spec_skip_record(recs[p]) {
        lemma_next_live_blanks(recs, p + 1);
    }
}

/// Blank records contribute no events.
proof fn lemma_upto_blanks(recs: Seq<Seq<Seq<char>>>, p: int, q: int)
    requires
        0 <= p <= q <= recs.len(),
        forall|k: int| p <= k < q ==> spec_skip_record(#[trigger] recs[k]),
    ensures
        spec_events_upto(recs, q) == spec_events_upto(recs, p),
    decreases q - p,
{
    if p < q {
        lemma_events_upto_step(recs, q - 1);
        lemma_upto_blanks(recs, p, q - 1);
        assert(spec_events_upto(recs, q) =~= spec_events_upto(recs, q - 1));
    }
}

/// Replays the input against the volatile cache backend, which cannot
/// fail: every decodable input is replayed to the end, and a malformed one
/// yields its first bad record's error.
pub fn historic_run_small(input: &[u8]) -> (r: Result<Bank<InMemoryTxCache>, HistoricRunError>)
    ensures
        match r {
            Ok(bank) => {
                &&& bank.wf()
                &&& (csv_records(input@) matches Some(recs) && spec_events_of(recs) matches Some(
                    txs,
                ) && (bank.spec_accounts(), bank.spec_cached()) == spec_bank_run(
                    Map::<u16, Account>::empty(),
                    Map::<u32, crate::tx::stored::TxDetails>::empty(),
                    txs,
                ))
            },
            Err(HistoricRunError::ParseError(e)) => match csv_records(input@) {
                None => e matches ParseError::Csv(_),
                Some(recs) => spec_events_of(recs) is None && spec_record_error(
                    recs[spec_run_end(recs)],
                    e,
                ),
            },
            Err(HistoricRunError::Cache(_)) => false,
        },
        (csv_records(input@) matches Some(recs) && spec_events_of(recs) is Some) ==> r is Ok,
{
    historic_run(input, InMemoryTxCache::default())
}

/// One report row: the account id, the available balance, the held
/// balance, their total, and whether the account is frozen.
pub open spec fn spec_row(id: u16, a: Account) -> Seq<Seq<char>> {
    seq![
        spec_digits(id as int),
        spec_money_chars(a.balance@),
        spec_money_chars(a.held@),
        spec_money_chars(a.balance@ + a.held@),
        (if a.state == AccountState::Frozen {
            "true"@
        } else {
            "false"@
        }),
    ]
}

/// Builds the report rows for the final accounts, one per account, in the
/// order given.
pub fn state_rows(accounts: &Vec<(AccountId, Account)>) -> (r: Vec<Vec<String>>)
    ensures
        r.deep_view().len() == accounts@.len(),
        forall|i: int|
            0 <= i < accounts@.len() ==> #[trigger] r.deep_view()[i] == spec_row(
                accounts@[i].0.0,
                accounts@[i].1,
            ),
{
    let mut out: Vec<Vec<String>> = Vec::new();
    let mut i: usize = 0;
    while i < accounts.len()
        invariant
            i <= accounts@.len(),
            out.deep_view().len() == i,
            forall|k: int|
                0 <= k < i ==> #[trigger] out.deep_view()[k] == spec_row(
                    accounts@[k].0.0,
                    accounts@[k].1,
                ),
        decreases accounts@.len() - i,
    {
        let (id, acct) = accounts[i];
        let mut row: Vec<String> = Vec::new();
        let mut sid = String::new();
        append_number(&mut sid, id.0 as u64);
        row.push(sid);
        row.push(acct.balance.to_decimal_string());
        row.push(acct.held.to_decimal_string());
        let mut total = String::new();
        append_money_chars(&mut total, (acct.balance.units as i128) + (acct.held.units as i128));
        row.push(total);
        let frozen = match acct.state {
            AccountState::Frozen => true,
            AccountState::Active => false,
        };
        row.push(if frozen {
            "true".to_owned()
        } else {
            "false".to_owned()
        });
        proof {
            assert(row.deep_view() =~~= spec_row(id.0, acct));
        }
        let ghost prev = out@;
        let ghost dv_prev = out.deep_view();
        out.push(row);
        proof {
            assert forall|k: int|
                0 <= k <= i implies #[trigger] out.deep_view()[k] == spec_row(
                    accounts@[k].0.0,
                    accounts@[k].1,
                ) by {
                assert(out.deep_view()[k] == out@[k].deep_view());
                if k < i {
                    assert(out@[k] == prev[k]);
                    assert(dv_prev[k] == prev[k].deep_view());
                    assert(dv_prev[k] == spec_row(accounts@[k].0.0, accounts@[k].1));
                } else {
                    assert(out@[k] == row);
                }
            }
        }
        i = i + 1;
    }
    out
}

} // verus!
