//! Decimal rendering and parsing of `i32` values, specified exactly.

use vstd::prelude::*;

verus! {

/// The decimal digit character for a value in `0..10`.
pub open spec fn digit_of(d: int) -> char {
    if d == 0 {
        '0'
    } else if d == 1 {
        '1'
    } else if d == 2 {
        '2'
    } else if d == 3 {
        '3'
    } else if d == 4 {
        '4'
    } else if d == 5 {
        '5'
    } else if d == 6 {
        '6'
    } else if d == 7 {
        '7'
    } else if d == 8 {
        '8'
    } else {
        '9'
    }
}

/// The decimal digits of a non-negative integer, most significant first.
pub open spec fn dec_nat(n: nat) -> Seq<char>
    decreases n,
{
    if n < 10 {
        seq![digit_of(n as int)]
    } else {
        dec_nat(n / 10) + seq![digit_of((n % 10) as int)]
    }
}

/// The canonical decimal rendering of an integer: a minus sign for
/// negative values, digits without leading zeros otherwise.
pub open spec fn dec_int(n: int) -> Seq<char> {
    if n < 0 {
        seq!['-'] + dec_nat((-n) as nat)
    } else {
        dec_nat(n as nat)
    }
}

pub open spec fn is_digit(c: char) -> bool {
    48 <= c as int && c as int <= 57
}

pub open spec fn all_digits(s: Seq<char>) -> bool {
    forall|i: int| 0 <= i < s.len() ==> is_digit(#[trigger] s[i])
}

/// The value of a sequence of decimal digits, most significant first.
pub open spec fn digits_val(s: Seq<char>) -> int
    decreases s.len(),
{
    if s.len() == 0 {
        0
    } else {
        digits_val(s.drop_last()) * 10 + (s.last() as int - 48)
    }
}

/// The integer denoted by a decimal token in the form accepted by
/// `str::parse::<i32>`: an optional sign followed by at least one digit.
pub open spec fn int_of_dec(s: Seq<char>) -> Option<int> {
    if s.len() >= 2 && s[0] == '-' && all_digits(s.skip(1)) {
        Some(-digits_val(s.skip(1)))
    } else if s.len() >= 2 && s[0] == '+' && all_digits(s.skip(1)) {
        Some(digits_val(s.skip(1)))
    } else if s.len() >= 1 && all_digits(s) {
        Some(digits_val(s))
    } else {
        None
    }
}

/// What parsing a token as an `i32` yields: the denoted integer when it
/// exists and fits, nothing otherwise.
pub open spec fn parse_i32_of(s: Seq<char>) -> Option<int> {
    match int_of_dec(s) {
        Some(v) => if i32::MIN <= v && v <= i32::MAX {
            Some(v)
        } else {
            None::<int>
        },
        None => None::<int>,
    }
}

pub(crate) proof fn lemma_digits_val_nonneg(s: Seq<char>)
    requires
        all_digits(s),
    ensures
        digits_val(s) >= 0,
    decreases s.len(),
{
    if s.len() > 0 {
        assert(all_digits(s.drop_last())) by {
            assert(forall|i: int| 0 <= i < s.len() - 1 ==> s.drop_last()[i] == s[i]);
        }
        lemma_digits_val_nonneg(s.drop_last());
    }
}

/// Extending a digit string can only grow its value.
pub(crate) proof fn lemma_digits_val_monotone(s: Seq<char>, i: int)
    requires
        all_digits(s),
        0 <= i <= s.len(),
    ensures
        digits_val(s) >= digits_val(s.take(i)),
    decreases s.len() - i,
{
    if i < s.len() {
        lemma_digits_val_monotone(s, i + 1);
        assert(s.take(i + 1).drop_last() =~= s.take(i));
        assert(all_digits(s.take(i + 1))) by {
            assert(forall|j: int| 0 <= j < i + 1 ==> s.take(i + 1)[j] == s[j]);
        }
        lemma_digits_val_nonneg(s.take(i));
        assert(digits_val(s.take(i + 1)) == digits_val(s.take(i)) * 10 + (s[i] as int - 48));
    } else {
        assert(s.take(i) =~= s);
    }
}

/// The digit characters of a sequence of digit values, read back to front.
spec fn rev_chars(r: Seq<u64>) -> Seq<char>
    decreases r.len(),
{
    if r.len() == 0 {
        Seq::empty()
    } else {
        seq![digit_of(r.last() as int)] + rev_chars(r.drop_last())
    }
}

proof fn lemma_rev_chars_props(r: Seq<u64>)
    ensures
        rev_chars(r).len() == r.len(),
        forall|k: int| 0 <= k < r.len() ==> rev_chars(r)[k] == digit_of(
            r[r.len() - 1 - k] as int,
        ),
    decreases r.len(),
{
    if r.len() > 0 {
        lemma_rev_chars_props(r.drop_last());
    }
}

/// Append one decimal digit character to a string.
fn push_digit(s: &mut String, d: u64)
    requires
        d < 10,
    ensures
        final(s)@ == old(s)@ + seq![digit_of(d as int)],
{
    if d == 0 {
        proof {
            reveal_strlit("0");
            assert("0"@ =~= seq![digit_of(0)]);
        }
        s.append("0");
    } else if d == 1 {
        proof {
            reveal_strlit("1");
            assert("1"@ =~= seq![digit_of(1)]);
        }
        s.append("1");
    } else if d == 2 {
        proof {
            reveal_strlit("2");
            assert("2"@ =~= seq![digit_of(2)]);
        }
        s.append("2");
    } else if d == 3 {
        proof {
            reveal_strlit("3");
            assert("3"@ =~= seq![digit_of(3)]);
        }
        s.append("3");
    } else if d == 4 {
        proof {
            reveal_strlit("4");
            assert("4"@ =~= seq![digit_of(4)]);
        }
        s.append("4");
    } else if d == 5 {
        proof {
            reveal_strlit("5");
            assert("5"@ =~= seq![digit_of(5)]);
        }
        s.append("5");
    } else if d == 6 {
        proof {
            reveal_strlit("6");
            assert("6"@ =~= seq![digit_of(6)]);
        }
        s.append("6");
    } else if d == 7 {
        proof {
            reveal_strlit("7");
            assert("7"@ =~= seq![digit_of(7)]);
        }
        s.append("7");
    } else if d == 8 {
        proof {
            reveal_strlit("8");
            assert("8"@ =~= seq![digit_of(8)]);
        }
        s.append("8");
    } else {
        proof {
            reveal_strlit("9");
            assert("9"@ =~= seq![digit_of(9)]);
        }
        s.append("9");
    }
}

/// Render an `i32` in its canonical decimal form.
pub fn i32_to_string(n: i32) -> (r: String)
    ensures
        r@ == dec_int(n as int),
{
    let mut m: u64 = if n < 0 {
        (-(n as i64)) as u64
    } else {
        n as u64
    };
    let ghost m0: nat = m as nat;
    let mut rev: Vec<u64> = Vec::new();
    while m >= 10
        invariant
            dec_nat(m0) == dec_nat(m as nat) + rev_chars(rev@),
            forall|k: int| 0 <= k < rev@.len() ==> #[trigger] rev@[k] < 10,
        decreases m,
    {
        let d = m % 10;
        proof {
            assert(rev@.push(d).drop_last() =~= rev@);
            assert(dec_nat(m as nat) == dec_nat((m / 10) as nat) + seq![
                digit_of((m % 10) as int),
            ]);
            assert(dec_nat((m / 10) as nat) + rev_chars(rev@.push(d)) =~= dec_nat(m as nat)
                + rev_chars(rev@));
        }
        rev.push(d);
        m = m / 10;
    }
    proof {
        assert(rev@.push(m).drop_last() =~= rev@);
        assert(dec_nat(m as nat) =~= seq![digit_of(m as int)]);
        assert(rev_chars(rev@.push(m)) =~= dec_nat(m0));
    }
    rev.push(m);
    let revlen = rev.len();
    let mut digits = String::new();
    let mut j: usize = 0;
    while j < revlen
        invariant
            revlen == rev@.len(),
            j <= revlen,
            forall|k: int| 0 <= k < rev@.len() ==> #[trigger] rev@[k] < 10,
            digits@.len() == j,
            forall|k: int| 0 <= k < j ==> digits@[k] == digit_of(
                rev@[rev@.len() - 1 - k] as int,
            ),
        decreases revlen - j,
    {
        push_digit(&mut digits, rev[revlen - 1 - j]);
        j += 1;
    }
    proof {
        lemma_rev_chars_props(rev@);
        assert(digits@ =~= rev_chars(rev@));
    }
    if n < 0 {
        let mut r = String::new();
        proof {
            reveal_strlit("-");
            assert("-"@ =~= seq!['-']);
        }
        r.append("-");
        r.append(digits.as_str());
        proof {
            assert(r@ =~= dec_int(n as int));
        }
        r
    } else {
        proof {
            assert(digits@ =~= dec_int(n as int));
        }
        digits
    }
}

/// Decide whether a character is a decimal digit.
pub(crate) fn is_digit_ch(c: char) -> (r: bool)
    ensures
        r == is_digit(c),
{
    let u = c as u32;
    u >= 48 && u <= 57
}

/// Parse a token as an `i32`, exactly as the dispatcher's grammar demands.
pub fn parse_i32(s: &str) -> (r: Option<i32>)
    ensures
        (match r {
            Some(v) => parse_i32_of(s@) == Some(v as int),
            None => parse_i32_of(s@) is None,
        }),
{
    let len = s.unicode_len();
    if len == 0 {
        return None;
    }
    let first = s.get_char(0);
    let neg = first == '-';
    let signed = first == '-' || first == '+';
    let start: usize = if signed {
        1
    } else {
        0
    };
    if len == start {
        // a bare sign has no digits
        return None;
    }
    let ghost digits: Seq<char> = s@.skip(start as int);
    let mut i: usize = start;
    let mut acc: i64 = 0;
    while i < len
        invariant
            start <= i <= len,
            len == s@.len(),
            len > start,
            start == 0 || start == 1,
            start == 1 ==> (s@[0] == '-' || s@[0] == '+'),
            start == 0 ==> (s@[0] != '-' && s@[0] != '+'),
            digits == s@.skip(start as int),
            all_digits(digits.take(i - start)),
            acc == digits_val(digits.take(i - start)),
            0 <= acc <= 0x8000_0000,
        decreases len - i,
    {
        let c = s.get_char(i);
        let u = c as u32;
        if u < 48 || u > 57 {
            proof {
                assert(s@.skip(0) =~= s@);
                assert(!is_digit(digits[i - start]));
                assert(!all_digits(digits));
            }
            return None;
        }
        proof {
            assert(digits.take(i + 1 - start).drop_last() =~= digits.take(i - start));
        }
        acc = acc * 10 + ((u - 48) as i64);
        i += 1;
        if acc > 0x8000_0000 {
            proof {
                assert(s@.skip(0) =~= s@);
                if all_digits(digits) {
                    lemma_digits_val_monotone(digits, i - start);
                }
            }
            return None;
        }
    }
    proof {
        assert(digits.take(len - start) =~= digits);
        assert(s@.skip(0) =~= s@);
    }
    if neg {
        if acc > 0x8000_0000 {
            return None;
        }
        proof {
            assert(s@.skip(1) == digits);
        }
        Some((-acc) as i32)
    } else {
        if acc > 0x7fff_ffff {
            return None;
        }
        Some(acc as i32)
    }
}

} // verus!
