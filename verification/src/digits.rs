//! Decimal digit strings: the value of a run of ASCII digits, and the
//! canonical rendering of a non-negative number, shared by amount parsing,
//! amount formatting and report building.

use vstd::prelude::*;
use vstd::string::StringExecFns;

verus! {

/// The character for one digit value.
pub open spec fn spec_digit_char(d: int) -> char {
    if d == 0 {
        '0'
    } else if d == 1 {
        '1'
    } else if d == 2 {
        '2'
    } else if d == 3 {
        '3'
    } else if d == 4 {
        '4'
    } else if d == 5 {
        '5'
    } else if d == 6 {
        '6'
    } else if d == 7 {
        '7'
    } else if d == 8 {
        '8'
    } else {
        '9'
    }
}

pub open spec fn is_decimal_digit(c: char) -> bool {
    '0' <= c && c <= '9'
}

/// The numeric value of one digit character.
pub open spec fn digit_val(c: char) -> int {
    c as int - '0' as int
}

pub open spec fn all_digits(s: Seq<char>) -> bool {
    forall|i: int| 0 <= i < s.len() ==> is_decimal_digit(#[trigger] s[i])
}

/// The number written by a run of digits, most significant first.
pub open spec fn digits_val(s: Seq<char>) -> int
    decreases s.len(),
{
    if s.len() == 0 {
        0
    } else {
        digits_val(s.drop_last()) * 10 + digit_val(s.last())
    }
}

/// The shortest rendering of `n >= 0`, most significant digit first.
pub open spec fn spec_digits(n: int) -> Seq<char>
    decreases n,
{
    if n < 10 {
        seq![spec_digit_char(n)]
    } else {
        spec_digits(n / 10).push(spec_digit_char(n % 10))
    }
}

/// The rendering of `n`'s last `w` digits, zero-padded to exactly `w` characters.
pub open spec fn spec_padded_digits(n: int, w: nat) -> Seq<char>
    decreases w,
{
    if w == 0 {
        Seq::empty()
    } else {
        spec_padded_digits(n / 10, (w - 1) as nat).push(spec_digit_char(n % 10))
    }
}

/// Extending a digit run by one digit multiplies its value by ten.
pub proof fn lemma_digits_val_step(s: Seq<char>, j: int)
    requires
        0 <= j < s.len(),
    ensures
        digits_val(s.take(j + 1)) == digits_val(s.take(j)) * 10 + digit_val(s[j]),
{
    let t = s.take(j + 1);
    assert(t.drop_last() =~= s.take(j));
    assert(t.last() == s[j]);
}

/// A run of digits has a non-negative value.
pub proof fn lemma_digits_val_nonneg(s: Seq<char>)
    requires
        all_digits(s),
    ensures
        digits_val(s) >= 0,
    decreases s.len(),
{
    if s.len() > 0 {
        assert(all_digits(s.drop_last())) by {
            assert(forall|i: int|
                0 <= i < s.len() - 1 ==> is_decimal_digit(#[trigger] s.drop_last()[i]));
        }
        lemma_digits_val_nonneg(s.drop_last());
    }
}

pub open spec fn pow10(e: nat) -> int
    decreases e,
{
    if e == 0 {
        1
    } else {
        10 * pow10((e - 1) as nat)
    }
}

/// A run of digits is worth less than one followed by `10^len`.
pub proof fn lemma_digits_val_upper(s: Seq<char>)
    requires
        all_digits(s),
    ensures
        digits_val(s) < pow10(s.len()),
    decreases s.len(),
{
    if s.len() == 0 {
    } else {
        assert(all_digits(s.drop_last())) by {
            assert(forall|i: int|
                0 <= i < s.len() - 1 ==> is_decimal_digit(#[trigger] s.drop_last()[i]));
        }
        lemma_digits_val_upper(s.drop_last());
        assert(digit_val(s.last()) <= 9);
    }
}

/// Reading a rendering back gives the number it renders: the shortest
/// rendering of `n` is a digit run worth exactly `n`.
pub proof fn lemma_spec_digits_value(n: int)
    requires
        n >= 0,
    ensures
        all_digits(spec_digits(n)),
        digits_val(spec_digits(n)) == n,
        spec_digits(n).len() >= 1,
    decreases n,
{
    if n < 10 {
        let s = spec_digits(n);
        assert(s.drop_last() =~= Seq::<char>::empty());
        assert(digits_val(Seq::<char>::empty()) == 0);
        assert(s.last() == spec_digit_char(n));
        assert(digit_val(spec_digit_char(n)) == n);
    } else {
        lemma_spec_digits_value(n / 10);
        let s = spec_digits(n);
        assert(s.drop_last() =~= spec_digits(n / 10));
        assert(s.last() == spec_digit_char(n % 10));
        assert(digit_val(spec_digit_char(n % 10)) == n % 10);
        assert(forall|i: int| 0 <= i < s.len() ==> is_decimal_digit(#[trigger] s[i])) by {
            assert(forall|i: int|
                0 <= i < s.len() - 1 ==> s[i] == spec_digits(n / 10)[i]);
        }
    }
}

/// Where the run of digits that starts at `i` ends.
pub open spec fn digit_run_end(s: Seq<char>, i: int) -> int
    decreases s.len() - i,
{
    if 0 <= i < s.len() && is_decimal_digit(s[i]) {
        digit_run_end(s, i + 1)
    } else {
        i
    }
}

/// A stretch of digits followed by the end or a non-digit is the maximal
/// run.
pub proof fn lemma_digit_run_end_is(s: Seq<char>, from: int, j: int)
    requires
        0 <= from <= j <= s.len(),
        forall|k: int| from <= k < j ==> is_decimal_digit(#[trigger] s[k]),
        j == s.len() || !is_decimal_digit(s[j]),
    ensures
        digit_run_end(s, from) == j,
    decreases j - from,
{
    if from < j {
        lemma_digit_run_end_is(s, from + 1, j);
    }
}

/// The digit value of a character, or `None` when it is no digit.
pub fn digit_of(c: char) -> (r: Option<u64>)
    ensures
        match r {
            Some(d) => is_decimal_digit(c) && d == digit_val(c) && d < 10,
            None => !is_decimal_digit(c),
        },
{
    let v = c as u32;
    if 48 <= v && v <= 57 {
        Some((v - 48) as u64)
    } else {
        None
    }
}

/// Reads the maximal run of digits that starts at `from`, returning where it
/// ends together with its value, saturated at `cap`.
pub fn scan_digits(s: &str, from: usize, cap: u128) -> (r: (usize, u128))
    requires
        from <= s@.len(),
        1 <= cap <= u64::MAX as u128,
    ensures
        from <= r.0 <= s@.len(),
        forall|k: int| from <= k < r.0 ==> is_decimal_digit(#[trigger] s@[k]),
        r.0 < s@.len() ==> !is_decimal_digit(s@[r.0 as int]),
        ({
            let run = s@.subrange(from as int, r.0 as int);
            &&& (r.1 < cap ==> digits_val(run) == r.1)
            &&& (r.1 == cap ==> digits_val(run) >= cap)
            &&& r.1 <= cap
        }),
{
    let len = s.unicode_len();
    let mut j: usize = from;
    let mut v: u128 = 0;
    loop
        invariant
            from <= j <= len,
            len == s@.len(),
            from <= s@.len(),
            1 <= cap <= u64::MAX as u128,
            forall|k: int| from <= k < j ==> is_decimal_digit(#[trigger] s@[k]),
            ({
                let run = s@.subrange(from as int, j as int);
                &&& (v < cap ==> digits_val(run) == v)
                &&& (v == cap ==> digits_val(run) >= cap)
                &&& v <= cap
                &&& digits_val(run) >= 0
            }),
        ensures
            from <= j <= len,
            forall|k: int| from <= k < j ==> is_decimal_digit(#[trigger] s@[k]),
            j < len ==> !is_decimal_digit(s@[j as int]),
            ({
                let run = s@.subrange(from as int, j as int);
                &&& (v < cap ==> digits_val(run) == v)
                &&& (v == cap ==> digits_val(run) >= cap)
                &&& v <= cap
            }),
        decreases len - j,
    {
        if j >= len {
            break;
        }
        let c = s.get_char(j);
        match digit_of(c) {
            None => {
                break;
            },
            Some(d) => {
                proof {
                    let whole = s@.subrange(from as int, len as int);
                    lemma_digits_val_step(whole, j - from);
                    assert(whole.take(j - from) =~= s@.subrange(from as int, j as int));
                    assert(whole.take(j - from + 1) =~= s@.subrange(from as int, (j + 1) as int));
                    assert(whole[j - from] == s@[j as int]);
                }
                let w = v * 10 + (d as u128);
                if w > cap {
                    v = cap;
                } else {
                    v = w;
                }
                j = j + 1;
            },
        }
    }
    (j, v)
}

/// Appends one digit character to a string under construction.
pub fn push_digit_char(out: &mut String, d: u64)
    requires
        d < 10,
    ensures
        final(out)@ == old(out)@ + seq![spec_digit_char(d as int)],
{
    proof {
        reveal_strlit("0");
        reveal_strlit("1");
        reveal_strlit("2");
        reveal_strlit("3");
        reveal_strlit("4");
        reveal_strlit("5");
        reveal_strlit("6");
        reveal_strlit("7");
        reveal_strlit("8");
        reveal_strlit("9");
    }
    match d {
        0 => out.append("0"),
        1 => out.append("1"),
        2 => out.append("2"),
        3 => out.append("3"),
        4 => out.append("4"),
        5 => out.append("5"),
        6 => out.append("6"),
        7 => out.append("7"),
        8 => out.append("8"),
        _ => out.append("9"),
    }
    proof {
        assert(out@ =~= old(out)@ + seq![spec_digit_char(d as int)]);
    }
}

/// Appends the shortest decimal rendering of `n`.
pub fn append_number(out: &mut String, n: u64)
    ensures
        final(out)@ == old(out)@ + spec_digits(n as int),
    decreases n,
{
    if n < 10 {
        push_digit_char(out, n);
    } else {
        append_number(out, n / 10);
        push_digit_char(out, n % 10);
        proof {
            assert(out@ =~= old(out)@ + spec_digits(n as int));
        }
    }
}

/// Appends the last `w` digits of `n`, zero-padded to exactly `w` characters.
pub fn append_padded_number(out: &mut String, n: u64, w: u64)
    ensures
        final(out)@ == old(out)@ + spec_padded_digits(n as int, w as nat),
    decreases w,
{
    if w > 0 {
        append_padded_number(out, n / 10, w - 1);
        push_digit_char(out, n % 10);
        proof {
            assert(out@ =~= old(out)@ + spec_padded_digits(n as int, w as nat));
        }
    } else {
        proof {
            assert(out@ =~= old(out)@ + spec_padded_digits(n as int, 0));
        }
    }
}

} // verus!
