//! Unsigned numbers in decimal.
use vstd::prelude::*;
use crate::text;

verus! {

/// The character of a decimal digit.
pub open spec fn digit(d: int) -> char {
    (('0' as int) + d) as char
}

/// The decimal digits of `n`, without leading zeros.
pub open spec fn decimal(n: nat) -> Seq<char>
    decreases n,
{
    if n < 10 {
        seq![digit(n as int)]
    } else {
        decimal(n / 10).push(digit((n % 10) as int))
    }
}

/// `c` is a decimal digit.
pub open spec fn is_digit(c: char) -> bool {
    '0' <= c <= '9'
}

/// The number that the digits of `s` spell.
pub open spec fn value(s: Seq<char>) -> nat
    decreases s.len(),
{
    if s.len() == 0 {
        0
    } else {
        value(s.drop_last()) * 10 + ((s.last() as int - '0' as int) as nat)
    }
}

/// The number that `s` spells, where `s` is one or more digits and the
/// number fits.
pub open spec fn read(s: Seq<char>) -> Option<u64> {
    if s.len() > 0 && (forall|i: int| 0 <= i < s.len() ==> is_digit(#[trigger] s[i])) && value(s)
        <= u64::MAX {
        Some(value(s) as u64)
    } else {
        None
    }
}

proof fn decimal_digits(n: nat)
    ensures
        decimal(n).len() > 0,
        forall|i: int| 0 <= i < decimal(n).len() ==> is_digit(#[trigger] decimal(n)[i]),
        value(decimal(n)) == n,
    decreases n,
{
    if n < 10 {
        let s = decimal(n);
        assert(s.drop_last() =~= Seq::<char>::empty());
        assert(value(Seq::<char>::empty()) == 0);
        assert(s.last() == digit(n as int));
    } else {
        decimal_digits(n / 10);
        let s = decimal(n);
        assert(s.drop_last() =~= decimal(n / 10));
        assert(s.last() == digit((n % 10) as int));
    }
}

/// A number is read back as it was written.
pub proof fn decimal_reads_back(n: u64)
    ensures
        read(decimal(n as nat)) == Some(n),
{
    decimal_digits(n as nat);
}

fn digit_of(d: u64) -> (c: char)
    requires
        d < 10,
    ensures
        c == digit(d as int),
{
    if d == 0 {
        '0'
    } else if d == 1 {
        '1'
    } else if d == 2 {
        '2'
    } else if d == 3 {
        '3'
    } else if d == 4 {
        '4'
    } else if d == 5 {
        '5'
    } else if d == 6 {
        '6'
    } else if d == 7 {
        '7'
    } else if d == 8 {
        '8'
    } else {
        '9'
    }
}

/// `n` in decimal.
pub fn show(n: u64) -> (s: String)
    ensures
        s@ == decimal(n as nat),
    decreases n,
{
    if n < 10 {
        let mut s: String = String::new();
        s.push(digit_of(n));
        assert(s@ =~= decimal(n as nat));
        s
    } else {
        let mut s = show(n / 10);
        s.push(digit_of(n % 10));
        s
    }
}

proof fn value_grows(s: Seq<char>, i: int)
    requires
        0 <= i <= s.len(),
        forall|j: int| 0 <= j < s.len() ==> is_digit(#[trigger] s[j]),
    ensures
        value(s.take(i)) <= value(s),
    decreases s.len() - i,
{
    if i < s.len() {
        value_grows(s, i + 1);
        assert(s.take(i + 1).drop_last() =~= s.take(i));
        assert(s.take(i + 1).last() == s[i]);
    } else {
        assert(s.take(i) =~= s);
    }
}

/// The number that `s` spells.
pub fn parse(s: &str) -> (r: Option<u64>)
    ensures
        r == read(s@),
{
    let c = text::chars(s);
    if c.len() == 0 {
        return None;
    }
    let mut k: usize = 0;
    while k < c.len()
        invariant
            k <= c.len(),
            c@ == s@,
            forall|j: int| 0 <= j < k ==> is_digit(#[trigger] s@[j]),
        decreases c.len() - k,
    {
        if c[k] < '0' || c[k] > '9' {
            assert(!is_digit(s@[k as int]));
            return None;
        }
        k += 1;
    }
    let mut n: u64 = 0;
    let mut i: usize = 0;
    assert(s@.take(0) =~= Seq::<char>::empty());
    while i < c.len()
        invariant
            i <= c.len(),
            c@ == s@,
            c.len() > 0,
            forall|j: int| 0 <= j < c.len() ==> is_digit(#[trigger] s@[j]),
            n == value(s@.take(i as int)),
        decreases c.len() - i,
    {
        proof {
            assert(s@.take(i + 1).drop_last() =~= s@.take(i as int));
            assert(s@.take(i + 1).last() == s@[i as int]);
            value_grows(s@, i + 1);
            assert(is_digit(s@[i as int]));
        }
        let d: u64 = c[i] as u64 - '0' as u64;
        if n > (u64::MAX - d) / 10 {
            assert(value(s@) > u64::MAX);
            return None;
        }
        n = n * 10 + d;
        i += 1;
    }
    assert(s@.take(i as int) =~= s@);
    Some(n)
}

/// A number is written in tens: its last digit is what is left of it by ten,
/// and what stands before that is the rest.
pub proof fn how_a_number_is_written(n: nat)
    ensures
        n < 10 ==> decimal(n) == seq![digit(n as int)],
        n >= 10 ==> decimal(n).drop_last() == decimal(n / 10) && decimal(n).last() == digit(
            (n % 10) as int,
        ),
        digit(0) == '0' && digit(1) == '1' && digit(2) == '2' && digit(3) == '3' && digit(4) == '4'
            && digit(5) == '5' && digit(6) == '6' && digit(7) == '7' && digit(8) == '8' && digit(9)
            == '9',
{
    if n >= 10 {
        assert(decimal(n).drop_last() =~= decimal(n / 10));
    }
}

} // verus!
