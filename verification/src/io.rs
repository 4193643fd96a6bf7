//! The input decoder: splits CSV bytes into records, and turns each record
//! into an incoming event, rejecting malformed ones.

use vstd::prelude::*;
use vstd::string::StrSliceExecFns;
use crate::account::AccountId;
use crate::digits::all_digits;
use crate::digits::digits_val;
use crate::digits::is_decimal_digit;
use crate::digits::scan_digits;
use crate::money::spec_parse_money;
use crate::tx::TxId;
use crate::tx::incoming::IncomingTx;
use crate::tx::incoming::IncomingTxError;
use crate::tx::incoming::IncomingTxDetails;
use crate::money::Money;

verus! {

/// Why a numeric field was rejected.
#[derive(Clone, Copy, Debug, PartialEq, Eq, Structural)]
pub enum IntParseError {
    /// No digits at all.
    Empty,
    /// A character that is no digit.
    InvalidDigit,
    /// More than the field's type can hold.
    Overflow,
}

#[verifier::external_type_specification]
#[verifier::external_body]
pub struct ExCsvError(csv::Error);

/// Why a record was rejected.
#[derive(Debug)]
pub enum ParseError {
    /// The reader could not split the input into records.
    Csv(csv::Error),
    /// A column the record kind needs is absent.
    MissingField(&'static str),
    /// An id column did not parse.
    IntField(IntParseError),
    /// The amount column did not parse, or is negative.
    IncomingTransaction(IncomingTxError),
    /// The first column names no known event kind.
    UnknownTransactionType(String),
}

/// The number an unsigned field writes: an optional plus sign, then
/// digits. `None` when malformed.
pub open spec fn spec_parse_uint(s: Seq<char>) -> Option<int> {
    let body = if s.len() > 0 && s[0] == '+' {
        s.skip(1)
    } else {
        s
    };
    if body.len() >= 1 && all_digits(body) {
        Some(digits_val(body))
    } else {
        None
    }
}

/// Reads an unsigned field, rejecting values above `bound`.
fn parse_uint(s: &str, bound: u64) -> (r: Result<u64, IntParseError>)
    requires
        1 <= bound <= u32::MAX as u64,
    ensures
        match spec_parse_uint(s@) {
            Some(v) => {
                &&& (v <= bound ==> (r matches Ok(x) && x == v))
                &&& (v > bound ==> r == Result::<u64, IntParseError>::Err(IntParseError::Overflow))
            },
            None => {
                let body = if s@.len() > 0 && s@[0] == '+' {
                    s@.skip(1)
                } else {
                    s@
                };
                r == Result::<u64, IntParseError>::Err(
                    if body.len() == 0 {
                        IntParseError::Empty
                    } else {
                        IntParseError::InvalidDigit
                    },
                )
            },
        },
{
    let len = s.unicode_len();
    let mut start: usize = 0;
    if len > 0 {
        if s.get_char(0) == '+' {
            start = 1;
        }
    }
    let ghost body = s@.skip(start as int);
    proof {
        if start == 0 {
            assert(body =~= s@);
        }
        assert(forall|x: int| 0 <= x < body.len() ==> body[x] == s@[start + x]);
    }
    let cap: u128 = (bound as u128) + 1;
    let (j, v) = scan_digits(s, start, cap);
    let ghost run = s@.subrange(start as int, j as int);
    if j == start {
        if start == len {
            return Err(IntParseError::Empty);
        } else {
            proof {
                assert(!is_decimal_digit(body[0]));
            }
            return Err(IntParseError::InvalidDigit);
        }
    }
    if j < len {
        proof {
            assert(!is_decimal_digit(body[j - start]));
        }
        return Err(IntParseError::InvalidDigit);
    }
    proof {
        assert(run =~= body);
        assert(all_digits(body));
    }
    if v == cap {
        return Err(IntParseError::Overflow);
    }
    Ok(v as u64)
}

/// The event one record describes: the kind named by the first column, the
/// account and transaction ids, and for funds-moving kinds the amount.
/// `None` when any part is malformed.
pub open spec fn spec_parse_record(fields: Seq<Seq<char>>) -> Option<IncomingTx> {
    if fields.len() < 2 {
        None
    } else {
        match spec_parse_uint(fields[1]) {
            None => None,
            Some(acct) => if acct > u16::MAX as int || fields.len() < 3 {
                None
            } else {
                match spec_parse_uint(fields[2]) {
                    None => None,
                    Some(txv) => if txv > u32::MAX as int {
                        None
                    } else {
                        let id = TxId(txv as u32);
                        let account = AccountId(acct as u16);
                        let ty = fields[0];
                        if ty == "deposit"@ || ty == "withdrawal"@ {
                            if fields.len() < 4 {
                                None
                            } else {
                                match spec_parse_money(fields[3]) {
                                    Some(u) => if 0 <= u <= i64::MAX as int {
                                        Some(
                                            IncomingTx {
                                                id,
                                                account,
                                                details: if ty == "deposit"@ {
                                                    IncomingTxDetails::Deposit(
                                                        Money { units: u as i64 },
                                                    )
                                                } else {
                                                    IncomingTxDetails::Withdrawal(
                                                        Money { units: u as i64 },
                                                    )
                                                },
                                            },
                                        )
                                    } else {
                                        None
                                    },
                                    None => None,
                                }
                            }
                        } else if ty == "dispute"@ {
                            Some(IncomingTx { id, account, details: IncomingTxDetails::Dispute })
                        } else if ty == "resolve"@ {
                            Some(IncomingTx { id, account, details: IncomingTxDetails::Resolve })
                        } else if ty == "chargeback"@ {
                            Some(IncomingTx { id, account, details: IncomingTxDetails::Chargeback })
                        } else {
                            None
                        }
                    },
                }
            },
        }
    }
}

/// Which error a malformed record draws, mirroring the order the columns
/// are read in: the kind column is looked at first, ids next, the amount
/// last.
pub open spec fn spec_record_error(fields: Seq<Seq<char>>, e: ParseError) -> bool {
    if fields.len() < 1 {
        e matches ParseError::MissingField(f) && f@ == "type"@
    } else if fields.len() < 2 {
        e matches ParseError::MissingField(f) && f@ == "client"@
    } else if spec_parse_uint(fields[1]) is None || spec_parse_uint(fields[1]).unwrap()
        > u16::MAX as int {
        e matches ParseError::IntField(_)
    } else if fields.len() < 3 {
        e matches ParseError::MissingField(f) && f@ == "tx"@
    } else if spec_parse_uint(fields[2]) is None || spec_parse_uint(fields[2]).unwrap()
        > u32::MAX as int {
        e matches ParseError::IntField(_)
    } else if fields[0] == "deposit"@ || fields[0] == "withdrawal"@ {
        if fields.len() < 4 {
            e matches ParseError::MissingField(f) && f@ == "amount"@
        } else {
            e matches ParseError::IncomingTransaction(_)
        }
    } else if fields[0] == "dispute"@ || fields[0] == "resolve"@ || fields[0] == "chargeback"@ {
        false
    } else {
        e matches ParseError::UnknownTransactionType(t) && t@ == fields[0]
    }
}

/// Whether two strings hold the same characters.
fn str_eq(a: &str, b: &str) -> (r: bool)
    ensures
        r == (a@ == b@),
{
    let la = a.unicode_len();
    let lb = b.unicode_len();
    if la != lb {
        proof {
            assert(a@ != b@) by {
                if a@ == b@ {
                    assert(a@.len() == b@.len());
                }
            }
        }
        return false;
    }
    let mut i: usize = 0;
    while i < la
        invariant
            i <= la,
            la == a@.len(),
            la == b@.len(),
            forall|k: int| 0 <= k < i ==> a@[k] == b@[k],
        decreases la - i,
    {
        if a.get_char(i) != b.get_char(i) {
            return false;
        }
        i = i + 1;
    }
    proof {
        assert(a@ =~= b@);
    }
    true
}

/// Turns one record into an event, or says exactly why it cannot.
fn parse_record(rec: &Vec<String>) -> (r: Result<IncomingTx, ParseError>)
    ensures
        match spec_parse_record(rec.deep_view()) {
            Some(tx) => r == Result::<IncomingTx, ParseError>::Ok(tx),
            None => r matches Err(e) && spec_record_error(rec.deep_view(), e),
        },
        r matches Ok(tx) ==> tx.wf(),
{
    let ghost fields = rec.deep_view();
    if rec.len() < 1 {
        return Err(ParseError::MissingField("type"));
    }
    if rec.len() < 2 {
        return Err(ParseError::MissingField("client"));
    }
    let account_v = match parse_uint(rec[1].as_str(), 0xffff) {
        Ok(v) => v,
        Err(e) => {
            return Err(ParseError::IntField(e));
        },
    };
    let account = AccountId(account_v as u16);
    if rec.len() < 3 {
        return Err(ParseError::MissingField("tx"));
    }
    let id_v = match parse_uint(rec[2].as_str(), 0xffff_ffff) {
        Ok(v) => v,
        Err(e) => {
            return Err(ParseError::IntField(e));
        },
    };
    let id = TxId(id_v as u32);
    let ty = rec[0].as_str();
    let is_deposit = str_eq(ty, "deposit");
    if is_deposit || str_eq(ty, "withdrawal") {
        if rec.len() < 4 {
            return Err(ParseError::MissingField("amount"));
        }
        let made = if is_deposit {
            IncomingTx::deposit(id, account, rec[3].as_str())
        } else {
            IncomingTx::withdrawal(id, account, rec[3].as_str())
        };
        match made {
            Ok(tx) => Ok(tx),
            Err(e) => Err(ParseError::IncomingTransaction(e)),
        }
    } else if str_eq(ty, "dispute") {
        Ok(IncomingTx::dispute(id, account))
    } else if str_eq(ty, "resolve") {
        Ok(IncomingTx::resolve(id, account))
    } else if str_eq(ty, "chargeback") {
        Ok(IncomingTx::chargeback(id, account))
    } else {
        Err(ParseError::UnknownTransactionType(ty.to_owned()))
    }
}

/// Whether the reader stops at this record: none of the fields are there,
/// or the first is empty, as on a trailing blank line.
pub open spec fn spec_skip_record(fields: Seq<Seq<char>>) -> bool {
    fields.len() == 0 || fields[0].len() == 0
}

/// What the CSV layer turns the input bytes into: records of trimmed
/// string fields, the header row dropped; or nothing when the bytes are
/// not CSV. The split depends on the bytes alone.
pub uninterp spec fn csv_records(input: Seq<u8>) -> Option<Seq<Seq<Seq<char>>>>;

/// Relies on csv::Reader (headers on, all fields trimmed, flexible record
/// lengths): splits the input bytes into records of string fields.
#[verifier::external_body]
fn csv_split(input: &[u8]) -> (r: Result<Vec<Vec<String>>, csv::Error>)
    ensures
        match r {
            Ok(recs) => csv_records(input@) == Some(recs.deep_view()),
            Err(_) => csv_records(input@) is None,
        },
{
    let rdr = csv::ReaderBuilder::new().has_headers(true).trim(csv::Trim::All).flexible(
        true,
    ).from_reader(input);
    let mut out: Vec<Vec<String>> = Vec::new();
    for rec in rdr.into_records() {
        out.push(rec?.iter().map(|f| f.to_string()).collect());
    }
    Ok(out)
}

/// Walks the records of one input, one event at a time.
pub struct RecordsIter {
    records: Vec<Vec<String>>,
    pos: usize,
}

impl RecordsIter {
    /// The records still to be read, field by field.
    pub closed spec fn spec_records(&self) -> Seq<Seq<Seq<char>>> {
        self.records.deep_view()
    }

    /// How many records have been read.
    pub closed spec fn spec_pos(&self) -> int {
        self.pos as int
    }

    /// The next event, an error for a malformed record, or nothing once
    /// the records are exhausted. Blank records — a trailing newline, or a
    /// line of nothing but spaces — are skipped, never events and never
    /// errors.
    pub fn next(&mut self) -> (r: Option<Result<IncomingTx, ParseError>>)
        ensures
            final(self).spec_records() == old(self).spec_records(),
            ({
                let recs = old(self).spec_records();
                let q = spec_next_live(recs, old(self).spec_pos());
                if q >= recs.len() {
                    r is None && final(self).spec_pos() == q
                } else {
                    &&& final(self).spec_pos() == q + 1
                    &&& match spec_parse_record(recs[q]) {
                        Some(tx) => r == Some(Result::<IncomingTx, ParseError>::Ok(tx)),
                        None => r matches Some(Err(e)) && spec_record_error(recs[q], e),
                    }
                }
            }),
            match r {
                Some(Ok(tx)) => tx.wf(),
                _ => true,
            },
    {
        let ghost recs = self.spec_records();
        let ghost p0 = self.spec_pos();
        if self.pos >= self.records.len() {
            return None;
        }
        loop
            invariant
                self.spec_records() == recs,
                p0 <= self.spec_pos() <= recs.len(),
                forall|k: int| p0 <= k < self.spec_pos() ==> spec_skip_record(#[trigger] recs[k]),
            ensures
                self.spec_records() == recs,
                p0 <= self.spec_pos() <= recs.len(),
                forall|k: int| p0 <= k < self.spec_pos() ==> spec_skip_record(#[trigger] recs[k]),
                self.spec_pos() == recs.len() || !spec_skip_record(recs[self.spec_pos()]),
            decreases recs.len() - self.spec_pos(),
        {
            if self.pos >= self.records.len() {
                break;
            }
            let blank = {
                let rec = &self.records[self.pos];
                rec.len() == 0 || rec[0].as_str().is_empty()
            };
            proof {
                assert(recs[self.spec_pos()] == self.records@[self.spec_pos()].deep_view());
                assert(blank == spec_skip_record(recs[self.spec_pos()]));
            }
            if !blank {
                break;
            }
            self.pos = self.pos + 1;
        }
        proof {
            lemma_next_live_at(recs, p0, self.spec_pos());
        }
        if self.pos >= self.records.len() {
            return None;
        }
        let p = self.pos;
        self.pos = p + 1;
        Some(parse_record(&self.records[p]))
    }
}

/// The first non-blank record at or after `p`, or the end of the list.
pub open spec fn spec_next_live(recs: Seq<Seq<Seq<char>>>, p: int) -> int
    decreases recs.len() - p,
{
    if 0 <= p < recs.len() && spec_skip_record(recs[p]) {
        spec_next_live(recs, p + 1)
    } else {
        p
    }
}

/// A stretch of blank records followed by the end or a non-blank one ends
/// at the first live record.
proof fn lemma_next_live_at(recs: Seq<Seq<Seq<char>>>, p: int, q: int)
    requires
        0 <= p <= q <= recs.len(),
        forall|k: int| p <= k < q ==> spec_skip_record(#[trigger] recs[k]),
        q == recs.len() || !spec_skip_record(recs[q]),
    ensures
        spec_next_live(recs, p) == q,
    decreases q - p,
{
    if p < q {
        lemma_next_live_at(recs, p + 1, q);
    }
}

/// Reads the whole input as CSV and hands back a reader over its records;
/// fails when the bytes are not CSV at all.
pub fn csv_reader(input: &[u8]) -> (r: Result<RecordsIter, ParseError>)
    ensures
        match r {
            Ok(it) => csv_records(input@) == Some(it.spec_records()) && it.spec_pos() == 0,
            Err(e) => csv_records(input@) is None && e matches ParseError::Csv(_),
        },
{
    match csv_split(input) {
        Ok(records) => Ok(RecordsIter { records, pos: 0 }),
        Err(e) => Err(ParseError::Csv(e)),
    }
}

} // verus!
