//! Exact monetary amounts: a count of 1/10_000 minor units held in a 64-bit
//! integer, so that repeated additions and subtractions never round.

use vstd::prelude::*;
use vstd::string::StringExecFns;
use vstd::string::StrSliceExecFns;
use crate::digits::all_digits;
use crate::digits::append_number;
use crate::digits::digits_val;
use crate::digits::is_decimal_digit;
use crate::digits::lemma_digits_val_nonneg;
use crate::digits::spec_digits;
use crate::digits::spec_padded_digits;
use crate::digits::append_padded_number;
use crate::digits::pow10;
use crate::digits::scan_digits;
use crate::digits::lemma_digits_val_upper;
use crate::digits::digit_run_end;
use crate::digits::lemma_digit_run_end_is;

verus! {

/// Why a textual amount was rejected.
#[derive(Clone, Copy, Debug, PartialEq, Eq, Structural)]
pub enum MoneyParseError {
    /// No digits where the grammar demands at least one.
    Empty,
    /// A character outside the `[+-]digits[.digits]` grammar.
    InvalidCharacter,
    /// More fractional digits than the four the representation carries.
    TooManyFractionDigits,
    /// The amount does not fit the 64-bit count of minor units.
    OutOfRange,
}

/// An exact decimal amount: `units` counts 1/10_000 of a whole unit.
#[derive(Clone, Copy, Debug, PartialEq, Eq, Hash, Structural)]
pub struct Money {
    pub units: i64,
}

impl View for Money {
    type V = int;

    open spec fn view(&self) -> int {
        self.units as int
    }
}

/// First position of a decimal point, if any.
pub open spec fn find_dot(s: Seq<char>) -> Option<int>
    decreases s.len(),
{
    if s.len() == 0 {
        None
    } else if s[0] == '.' {
        Some(0int)
    } else {
        match find_dot(s.skip(1)) {
            Some(i) => Some(i + 1),
            None => None,
        }
    }
}

/// The mathematical value, in minor units, written by `body` (no sign):
/// digits, optionally followed by a point and one to four fraction digits.
/// `None` when `body` does not follow that grammar.
pub open spec fn spec_parse_units(body: Seq<char>) -> Option<int> {
    match find_dot(body) {
        None => if body.len() >= 1 && all_digits(body) {
            Some(digits_val(body) * 10_000)
        } else {
            None
        },
        Some(i) => {
            let ip = body.take(i);
            let fp = body.skip(i + 1);
            if ip.len() >= 1 && 1 <= fp.len() <= 4 && all_digits(ip) && all_digits(fp) {
                Some(digits_val(ip) * 10_000 + digits_val(fp) * pow10((4 - fp.len()) as nat))
            } else {
                None
            }
        },
    }
}

/// The signed value, in minor units, written by `s`: an optional sign,
/// then digits with an optional fraction. `None` when malformed.
pub open spec fn spec_parse_money(s: Seq<char>) -> Option<int> {
    let body = if s.len() > 0 && (s[0] == '+' || s[0] == '-') {
        s.skip(1)
    } else {
        s
    };
    let sign: int = if s.len() > 0 && s[0] == '-' {
        -1
    } else {
        1
    };
    match spec_parse_units(body) {
        Some(u) => Some(sign * u),
        None => None,
    }
}

/// Which error a malformed amount draws, mirroring the reader's single
/// pass: the leading digit run first, then the point, then the fraction
/// run. Never reached by text the grammar accepts.
pub open spec fn spec_money_parse_err(s: Seq<char>) -> MoneyParseError {
    let body = if s.len() > 0 && (s[0] == '+' || s[0] == '-') {
        s.skip(1)
    } else {
        s
    };
    let j = digit_run_end(body, 0);
    if j == 0 {
        MoneyParseError::Empty
    } else if j == body.len() || body[j] != '.' {
        MoneyParseError::InvalidCharacter
    } else {
        let k = digit_run_end(body, j + 1);
        if k < body.len() {
            MoneyParseError::InvalidCharacter
        } else if k == j + 1 {
            MoneyParseError::Empty
        } else if k - (j + 1) > 4 {
            MoneyParseError::TooManyFractionDigits
        } else {
            MoneyParseError::OutOfRange
        }
    }
}

/// The exact rendering of `v` minor units: optional minus sign, the whole
/// part, and the fraction with trailing zeros dropped.
pub open spec fn spec_money_chars(v: int) -> Seq<char> {
    let mag = if v < 0 {
        -v
    } else {
        v
    };
    let sign: Seq<char> = if v < 0 {
        seq!['-']
    } else {
        Seq::empty()
    };
    let whole = mag / 10_000;
    let frac = mag % 10_000;
    sign + spec_digits(whole) + (if frac == 0 {
        Seq::<char>::empty()
    } else {
        seq!['.'] + spec_frac_chars(frac, 4)
    })
}

/// The fraction digits of a rendering `w` places wide, trailing zeros dropped.
pub open spec fn spec_frac_chars(f: int, w: nat) -> Seq<char>
    decreases w,
{
    if w > 1 && f % 10 == 0 {
        spec_frac_chars(f / 10, (w - 1) as nat)
    } else {
        spec_padded_digits(f, w)
    }
}

impl Money {
    /// The zero amount.
    pub fn zero() -> (r: Money)
        ensures
            r@ == 0,
    {
        Money { units: 0 }
    }

    /// An amount given directly as a count of 1/10_000 minor units.
    pub fn from_units(units: i64) -> (r: Money)
        ensures
            r@ == units as int,
    {
        Money { units }
    }

    /// The sum, or `None` when it leaves the 64-bit range.
    pub fn checked_add(self, rhs: Money) -> (r: Option<Money>)
        ensures
            i64::MIN <= self@ + rhs@ <= i64::MAX ==> (r matches Some(m) && m@ == self@ + rhs@),
            !(i64::MIN <= self@ + rhs@ <= i64::MAX) ==> r is None,
    {
        match self.units.checked_add(rhs.units) {
            Some(u) => Some(Money { units: u }),
            None => None,
        }
    }

    /// The difference, or `None` when it leaves the 64-bit range.
    pub fn checked_sub(self, rhs: Money) -> (r: Option<Money>)
        ensures
            i64::MIN <= self@ - rhs@ <= i64::MAX ==> (r matches Some(m) && m@ == self@ - rhs@),
            !(i64::MIN <= self@ - rhs@ <= i64::MAX) ==> r is None,
    {
        match self.units.checked_sub(rhs.units) {
            Some(u) => Some(Money { units: u }),
            None => None,
        }
    }

    /// The negated amount.
    pub fn neg(self) -> (r: Money)
        requires
            self@ > i64::MIN,
        ensures
            r@ == -self@,
    {
        Money { units: -self.units }
    }

    /// Whether this amount is strictly below `rhs`.
    pub fn lt(&self, rhs: &Money) -> (r: bool)
        ensures
            r == (self@ < rhs@),
    {
        self.units < rhs.units
    }

    /// Reads an exact decimal amount: an optional sign, whole digits and up
    /// to four fraction digits. Rejects anything else, and any value whose
    /// count of minor units leaves the 64-bit range.
    #[verifier::rlimit(50)]
    pub fn from_str_exact(s: &str) -> (r: Result<Money, MoneyParseError>)
        ensures
            match spec_parse_money(s@) {
                Some(u) => {
                    &&& (-(i64::MAX as int) <= u <= i64::MAX as int ==> (r matches Ok(m) && m@
                        == u))
                    &&& (!(-(i64::MAX as int) <= u <= i64::MAX as int) ==> r
                        == Result::<Money, MoneyParseError>::Err(MoneyParseError::OutOfRange))
                },
                None => r == Result::<Money, MoneyParseError>::Err(spec_money_parse_err(s@)),
            },
    {
        let len = s.unicode_len();
        let mut start: usize = 0;
        let mut neg = false;
        if len > 0 {
            let c0 = s.get_char(0);
            if c0 == '-' {
                neg = true;
                start = 1;
            } else if c0 == '+' {
                start = 1;
            }
        }
        let ghost body = s@.skip(start as int);
        let ghost sign: int = if neg {
            -1
        } else {
            1
        };
        proof {
            if start == 0 {
                assert(body =~= s@);
            }
            assert(spec_parse_money(s@) == (match spec_parse_units(body) {
                Some(u) => Some(sign * u),
                None => None::<int>,
            }));
        }
        let cap: u128 = 0x8000_0000_0000_0000;
        let (j, v) = scan_digits(s, start, cap);
        let ghost run = s@.subrange(start as int, j as int);
        proof {
            assert(forall|x: int| 0 <= x < body.len() ==> body[x] == s@[start + x]);
        }
        if j == start {
            proof {
                lemma_find_dot(body);
                match find_dot(body) {
                    None => {
                        if body.len() >= 1 {
                            assert(!is_decimal_digit(body[0]));
                        }
                    },
                    Some(i) => {
                        if i > 0 {
                            assert(body[0] != '.');
                            assert(!is_decimal_digit(body.take(i)[0]));
                        }
                    },
                }
                assert(spec_parse_units(body) is None);
                lemma_digit_run_end_is(body, 0, 0);
                assert(spec_money_parse_err(s@) == MoneyParseError::Empty);
            }
            return Err(MoneyParseError::Empty);
        }
        if j == len {
            proof {
                assert(run =~= body);
                assert(all_digits(body));
                lemma_find_dot_none(body);
                lemma_digits_val_nonneg(body);
            }
            if v == cap {
                proof {
                    let dv = digits_val(body);
                    assert(dv * 10_000 >= dv * 1) by (nonlinear_arith)
                        requires
                            dv >= 0,
                    ;
                }
                return Err(MoneyParseError::OutOfRange);
            }
            let total: u128 = v * 10_000;
            if total > 0x7fff_ffff_ffff_ffff {
                return Err(MoneyParseError::OutOfRange);
            }
            let units_mag = total as i64;
            let units = if neg {
                -units_mag
            } else {
                units_mag
            };
            return Ok(Money { units });
        }
        let c = s.get_char(j);
        let ghost dotpos = j - start;
        if c != '.' {
            proof {
                lemma_find_dot(body);
                assert(!is_decimal_digit(body[dotpos]));
                match find_dot(body) {
                    None => {
                        assert(!all_digits(body));
                    },
                    Some(i) => {
                        if i < dotpos {
                            assert(is_decimal_digit(body[i]));
                        } else if i > dotpos {
                            assert(!is_decimal_digit(body.take(i)[dotpos]));
                        }
                    },
                }
                assert(spec_parse_units(body) is None);
                lemma_digit_run_end_is(body, 0, dotpos);
                assert(spec_money_parse_err(s@) == MoneyParseError::InvalidCharacter);
            }
            return Err(MoneyParseError::InvalidCharacter);
        }
        let (k, f) = scan_digits(s, j + 1, cap);
        let ghost ip = body.take(dotpos);
        let ghost fp = body.skip(dotpos + 1);
        proof {
            assert(forall|x: int| 0 <= x < dotpos ==> body[x] != '.') by {
                assert(forall|x: int|
                    0 <= x < dotpos ==> is_decimal_digit(#[trigger] body[x]));
            }
            lemma_find_dot_at(body, dotpos);
            assert(ip =~= run);
            assert(fp =~= s@.subrange((j + 1) as int, len as int));
            assert(all_digits(ip));
            lemma_digits_val_nonneg(ip);
        }
        proof {
            lemma_digit_run_end_is(body, 0, dotpos);
            assert(forall|x: int|
                dotpos + 1 <= x < k - start ==> is_decimal_digit(#[trigger] body[x]));
            if k < len {
                assert(!is_decimal_digit(body[k - start]));
            }
            lemma_digit_run_end_is(body, dotpos + 1, k - start);
        }
        if k < len {
            proof {
                assert(!is_decimal_digit(fp[k - (j + 1)]));
                assert(spec_money_parse_err(s@) == MoneyParseError::InvalidCharacter);
            }
            return Err(MoneyParseError::InvalidCharacter);
        }
        let fl = k - (j + 1);
        proof {
            assert(fp.len() == fl);
            assert(all_digits(fp));
            lemma_digits_val_nonneg(fp);
        }
        if fl == 0 {
            proof {
                assert(spec_money_parse_err(s@) == MoneyParseError::Empty);
            }
            return Err(MoneyParseError::Empty);
        }
        if fl > 4 {
            proof {
                assert(spec_money_parse_err(s@) == MoneyParseError::TooManyFractionDigits);
            }
            return Err(MoneyParseError::TooManyFractionDigits);
        }
        proof {
            lemma_digits_val_upper(fp);
            assert(pow10(0) == 1);
            assert(pow10(1) == 10);
            assert(pow10(2) == 100);
            assert(pow10(3) == 1000);
            assert(pow10(4) == 10000);
            assert(digits_val(fp) < 10000);
            assert(f < cap);
        }
        let pw: u128 = if fl == 1 {
            1000
        } else if fl == 2 {
            100
        } else if fl == 3 {
            10
        } else {
            1
        };
        proof {
            assert(pw as int == pow10((4 - fp.len()) as nat));
        }
        if v == cap {
            proof {
                let dvi = digits_val(ip);
                let dvf = digits_val(fp);
                assert(dvi * 10_000 >= dvi * 1) by (nonlinear_arith)
                    requires
                        dvi >= 0,
                ;
                assert(dvf * (pw as int) >= 0) by (nonlinear_arith)
                    requires
                        dvf >= 0 && pw >= 1,
                ;
            }
            return Err(MoneyParseError::OutOfRange);
        }
        proof {
            assert(f <= 9999);
            assert(f * pw <= 9999 * 1000) by (nonlinear_arith)
                requires
                    f <= 9999 && pw <= 1000,
            ;
        }
        let fracu: u128 = f * pw;
        let total: u128 = v * 10_000 + fracu;
        proof {
            assert(digits_val(ip) == v as int);
            assert(digits_val(fp) == f as int);
            assert(total as int == digits_val(ip) * 10_000 + digits_val(fp) * (pw as int));
            assert(spec_parse_units(body) == Some(total as int));
        }
        if total > 0x7fff_ffff_ffff_ffff {
            return Err(MoneyParseError::OutOfRange);
        }
        let units_mag = total as i64;
        let units = if neg {
            -units_mag
        } else {
            units_mag
        };
        Ok(Money { units })
    }

    /// Renders the amount exactly: optional minus sign, the whole part, and
    /// the fraction with trailing zeros dropped.
    pub fn to_decimal_string(&self) -> (r: String)
        ensures
            r@ == spec_money_chars(self@),
    {
        let mut out = String::new();
        append_money_chars(&mut out, self.units as i128);
        proof {
            assert(out@ =~= spec_money_chars(self@));
        }
        out
    }
}

/// Appends the exact rendering of `v` minor units, for values up to the
/// sum of two 64-bit amounts.
pub fn append_money_chars(out: &mut String, v: i128)
    requires
        2 * (i64::MIN as i128) <= v <= 2 * (i64::MAX as i128),
    ensures
        final(out)@ == old(out)@ + spec_money_chars(v as int),
{
    let neg = v < 0;
    let mag: u128 = if neg {
        (-v) as u128
    } else {
        v as u128
    };
    proof {
        assert(mag as int == (if v < 0 {
            -(v as int)
        } else {
            v as int
        }));
    }
    let whole = (mag / 10_000) as u64;
    let frac = (mag % 10_000) as u64;
    if neg {
        proof {
            reveal_strlit("-");
        }
        out.append("-");
        proof {
            assert(out@ =~= old(out)@ + seq!['-']);
        }
    }
    append_number(out, whole);
    if frac != 0 {
        proof {
            reveal_strlit(".");
        }
        out.append(".");
        append_frac(out, frac, 4);
    }
    proof {
        assert(out@ =~= old(out)@ + spec_money_chars(v as int));
    }
}

/// Appends the fraction digits, `w` places wide, with trailing zeros dropped.
fn append_frac(out: &mut String, f: u64, w: u64)
    requires
        w >= 1,
    ensures
        final(out)@ == old(out)@ + spec_frac_chars(f as int, w as nat),
    decreases w,
{
    if w > 1 && f % 10 == 0 {
        append_frac(out, f / 10, w - 1);
    } else {
        append_padded_number(out, f, w);
    }
}

/// Where `find_dot` points: the first decimal point, or nowhere.
pub proof fn lemma_find_dot(s: Seq<char>)
    ensures
        match find_dot(s) {
            Some(i) => 0 <= i < s.len() && s[i] == '.' && (forall|k: int|
                0 <= k < i ==> s[k] != '.'),
            None => forall|k: int| 0 <= k < s.len() ==> s[k] != '.',
        },
    decreases s.len(),
{
    if s.len() == 0 {
    } else if s[0] == '.' {
    } else {
        lemma_find_dot(s.skip(1));
        match find_dot(s.skip(1)) {
            Some(i) => {
                assert(s.skip(1)[i] == s[i + 1]);
                assert forall|k: int| 0 <= k < i + 1 implies s[k] != '.' by {
                    if k > 0 {
                        assert(s.skip(1)[k - 1] == s[k]);
                    }
                }
            },
            None => {
                assert forall|k: int| 0 <= k < s.len() implies s[k] != '.' by {
                    if k > 0 {
                        assert(s.skip(1)[k - 1] == s[k]);
                    }
                }
            },
        }
    }
}

/// A string of digits holds no decimal point.
pub proof fn lemma_find_dot_none(s: Seq<char>)
    requires
        all_digits(s),
    ensures
        find_dot(s) is None,
{
    lemma_find_dot(s);
    match find_dot(s) {
        None => {},
        Some(i) => {
            assert(is_decimal_digit(s[i]));
            assert(s[i] == '.');
            assert(false);
        },
    }
}

/// A decimal point preceded only by other characters is the one `find_dot` finds.
pub proof fn lemma_find_dot_at(s: Seq<char>, d: int)
    requires
        0 <= d < s.len(),
        s[d] == '.',
        forall|k: int| 0 <= k < d ==> s[k] != '.',
    ensures
        find_dot(s) == Some(d),
{
    lemma_find_dot(s);
    match find_dot(s) {
        None => {
            assert(false);
        },
        Some(i) => {
            if i < d {
                assert(s[i] != '.');
                assert(false);
            }
            if i > d {
                assert(s[d] != '.');
                assert(false);
            }
        },
    }
}

} // verus!
