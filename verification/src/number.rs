//! Whole numbers in decimal notation.

use vstd::prelude::*;
use vstd::slice::slice_subrange;

verus! {

pub open spec fn is_digit(c: char) -> bool {
    '0' <= c <= '9'
}

pub open spec fn all_digits(s: Seq<char>) -> bool {
    forall|i: int| 0 <= i < s.len() ==> is_digit(#[trigger] s[i])
}

/// A non-empty run of digits.
pub open spec fn is_numeral(s: Seq<char>) -> bool {
    s.len() > 0 && all_digits(s)
}

/// The number that a run of digits denotes.
pub open spec fn value_of(s: Seq<char>) -> nat
    decreases s.len(),
{
    if s.len() == 0 {
        0
    } else {
        (value_of(s.drop_last()) * 10 + (s.last() as int - '0' as int)) as nat
    }
}

/// What a numeral reads as: digits behind an optional plus sign, up to a largest number.
pub open spec fn read_number(s: Seq<char>, max: nat) -> Option<nat> {
    let digits = if s.len() > 0 && s[0] == '+' {
        s.drop_first()
    } else {
        s
    };
    if is_numeral(digits) && value_of(digits) <= max {
        Some(value_of(digits))
    } else {
        None
    }
}

pub fn digit(c: char) -> (b: bool)
    ensures
        b == is_digit(c),
{
    '0' <= c && c <= '9'
}

pub fn numeral(s: &[char]) -> (b: bool)
    ensures
        b == is_numeral(s@),
{
    let mut i: usize = 0;
    while i < s.len()
        invariant
            i <= s.len(),
            forall|j: int| 0 <= j < i ==> is_digit(#[trigger] s@[j]),
        decreases s.len() - i,
    {
        if !digit(s[i]) {
            assert(!is_digit(s@[i as int]));
            return false;
        }
        i += 1;
    }
    s.len() > 0
}

/// A prefix of a run of digits denotes no more than the whole.
pub proof fn lemma_prefix_value(s: Seq<char>, i: int)
    requires
        0 <= i <= s.len(),
        all_digits(s),
    ensures
        value_of(s.take(i)) <= value_of(s),
    decreases s.len(),
{
    if i < s.len() {
        let rest = s.drop_last();
        assert(all_digits(rest)) by {
            assert forall|j: int| 0 <= j < rest.len() implies is_digit(#[trigger] rest[j]) by {
                assert(rest[j] == s[j]);
            }
        }
        lemma_prefix_value(rest, i);
        assert(rest.take(i) =~= s.take(i));
        assert(is_digit(s[s.len() - 1]));
    } else {
        assert(s.take(i) =~= s);
    }
}

/// Reads a number up to a largest one.
pub fn parse(s: &[char], max: u32) -> (r: Option<u32>)
    ensures
        match r {
            Some(n) => read_number(s@, max as nat) == Some(n as nat),
            None => read_number(s@, max as nat) is None,
        },
{
    let digits = if s.len() > 0 && s[0] == '+' {
        slice_subrange(s, 1, s.len())
    } else {
        s
    };
    assert(digits@ =~= (if s@.len() > 0 && s@[0] == '+' {
        s@.drop_first()
    } else {
        s@
    }));
    if !numeral(digits) {
        return None;
    }
    let mut n: u64 = 0;
    let mut i: usize = 0;
    assert(digits@.take(0) =~= Seq::<char>::empty());
    while i < digits.len()
        invariant
            i <= digits.len(),
            is_numeral(digits@),
            n <= max,
            n == value_of(digits@.take(i as int)),
            read_number(s@, max as nat) == (if is_numeral(digits@) && value_of(digits@) <= max {
                Some(value_of(digits@))
            } else {
                None
            }),
        decreases digits.len() - i,
    {
        let c = digits[i];
        assert(is_digit(digits@[i as int]));
        assert(digits@.take(i + 1).drop_last() =~= digits@.take(i as int));
        n = n * 10 + (c as u64 - 48);
        i += 1;
        if n > max as u64 {
            proof {
                lemma_prefix_value(digits@, i as int);
            }
            return None;
        }
    }
    assert(digits@.take(i as int) =~= digits@);
    Some(n as u32)
}

/// The decimal notation of a number, without leading zeros.
pub open spec fn decimal(n: nat) -> Seq<char>
    decreases n,
{
    if n < 10 {
        seq![(48 + n) as char]
    } else {
        decimal(n / 10).push((48 + n % 10) as char)
    }
}

/// The decimal notation of a number that may be negative.
pub open spec fn signed_decimal(n: int) -> Seq<char> {
    if n < 0 {
        seq!['-'] + decimal((-n) as nat)
    } else {
        decimal(n as nat)
    }
}

fn push_decimal(r: &mut String, n: u64)
    ensures
        final(r)@ == old(r)@ + decimal(n as nat),
    decreases n,
{
    if n >= 10 {
        push_decimal(r, n / 10);
    }
    let d: u8 = 48 + (n % 10) as u8;
    let ghost before = r@;
    r.push(d as char);
    assert(r@ =~= old(r)@ + decimal(n as nat));
}

pub fn show(n: u64) -> (r: String)
    ensures
        r@ == decimal(n as nat),
{
    let mut r = String::new();
    push_decimal(&mut r, n);
    assert(r@ =~= decimal(n as nat));
    r
}

pub fn show_signed(n: i64) -> (r: String)
    ensures
        r@ == signed_decimal(n as int),
{
    if n >= 0 {
        return show(n as u64);
    }
    let mut r = String::new();
    r.push('-');
    let m: u64 = (-(n + 1)) as u64 + 1;
    push_decimal(&mut r, m);
    assert(r@ =~= signed_decimal(n as int));
    r
}

/// What the decimal notation of a number denotes is the number.
pub proof fn decimal_denotes(n: nat)
    ensures
        is_numeral(decimal(n)),
        value_of(decimal(n)) == n,
    decreases n,
{
    reveal_with_fuel(value_of, 2);
    let s = decimal(n);
    if n < 10 {
        assert(s.drop_last() =~= Seq::<char>::empty());
    } else {
        decimal_denotes(n / 10);
        let head = decimal(n / 10);
        assert(s.drop_last() =~= head);
        assert forall|i: int| 0 <= i < s.len() implies is_digit(#[trigger] s[i]) by {
            if i < head.len() {
                assert(head[i] == s[i]);
            }
        }
    }
}

/// Reading the decimal notation of a number gives the number back.
pub proof fn decimal_reads_back(n: nat, max: nat)
    requires
        n <= max,
    ensures
        read_number(decimal(n), max) == Some(n),
{
    decimal_denotes(n);
    assert(is_digit(decimal(n)[0]));
}

/// What reads as a number is made of digits, with at most a plus sign before them, and denotes no more
/// than the largest; a number beyond it is refused.
pub proof fn numbers_are_digits_within_bounds(s: Seq<char>, n: nat, max: nat)
    ensures
        read_number(s, max) == Some(n) ==> {
            &&& n <= max
            &&& s.len() > 0
            &&& s.last() != '+'
            &&& forall|i: int| 0 < i < s.len() ==> is_digit(#[trigger] s[i])
            &&& is_digit(s[0]) || s[0] == '+'
        },
        n > max ==> read_number(decimal(n), max) is None,
{
    decimal_denotes(n);
    assert(is_digit(decimal(n)[0]));
    if read_number(s, max) == Some(n) {
        if s[0] == '+' {
            let digits = s.drop_first();
            assert forall|i: int| 0 < i < s.len() implies is_digit(#[trigger] s[i]) by {
                assert(digits[i - 1] == s[i]);
            }
            assert(is_digit(s[s.len() - 1]));
        } else {
            assert(is_digit(s[s.len() - 1]));
        }
    }
}

/// A negative number is written as its absolute value behind a minus sign, any other without a sign.
pub proof fn sign_is_written_in_front(n: nat)
    ensures
        signed_decimal(n as int) == decimal(n),
        n > 0 ==> signed_decimal(-n) == seq!['-'] + decimal(n),
{
}

} // verus!
