//! Decimal numerals.
use vstd::prelude::*;
use crate::text;

verus! {

/// The numeral of a single digit.
pub open spec fn digit(d: nat) -> char {
    (48 + d) as char
}

/// The decimal numeral of `n`, without leading zeros.
pub open spec fn decimal(n: nat) -> Seq<char>
    decreases n,
{
    if n < 10 {
        seq![digit(n)]
    } else {
        decimal(n / 10).push(digit(n % 10))
    }
}

/// The decimal numeral of an integer, with a leading minus sign below zero.
pub open spec fn signed_decimal(n: int) -> Seq<char> {
    if n < 0 {
        seq!['-'] + decimal((-n) as nat)
    } else {
        decimal(n as nat)
    }
}

/// The value of a run of decimal digits.
pub open spec fn numeral_value(s: Seq<char>) -> nat
    decreases s.len(),
{
    if s.len() == 0 {
        0
    } else {
        numeral_value(s.drop_last()) * 10 + (s.last() as nat - 48) as nat
    }
}

pub open spec fn all_digits(s: Seq<char>) -> bool {
    forall|i: int| 0 <= i < s.len() ==> text::is_digit(#[trigger] s[i])
}

/// The numeral of a number holds digits only, and its value is the number.
pub proof fn lemma_decimal_value(n: nat)
    ensures
        decimal(n).len() > 0,
        all_digits(decimal(n)),
        numeral_value(decimal(n)) == n,
    decreases n,
{
    if n < 10 {
        assert(seq![digit(n)].drop_last() =~= Seq::<char>::empty());
        assert(numeral_value(Seq::<char>::empty()) == 0);
        assert(digit(n) as nat == 48 + n);
    } else {
        lemma_decimal_value(n / 10);
        let head = decimal(n / 10);
        assert(head.push(digit(n % 10)).drop_last() =~= head);
        assert(digit(n % 10) as nat == 48 + n % 10);
    }
}

/// Two numbers with the same numeral are the same.
pub proof fn decimal_injective(a: nat, b: nat)
    requires
        decimal(a) == decimal(b),
    ensures
        a == b,
{
    lemma_decimal_value(a);
    lemma_decimal_value(b);
}

fn push_decimal(s: &mut String, n: u64)
    ensures
        final(s)@ == old(s)@ + decimal(n as nat),
    decreases n,
{
    if n >= 10 {
        push_decimal(s, n / 10);
    }
    let d: u8 = (n % 10) as u8;
    let c: char = (48 + d) as char;
    assert(c == digit((n % 10) as nat));
    let ghost before = s@;
    s.push(c);
    assert(s@ =~= old(s)@ + decimal(n as nat));
}

pub fn u64_text(n: u64) -> (r: String)
    ensures
        r@ == decimal(n as nat),
{
    let mut r = String::new();
    push_decimal(&mut r, n);
    assert(Seq::<char>::empty() + decimal(n as nat) =~= decimal(n as nat));
    r
}

pub fn usize_text(n: usize) -> (r: String)
    ensures
        r@ == decimal(n as nat),
{
    u64_text(n as u64)
}

pub fn i64_text(n: i64) -> (r: String)
    ensures
        r@ == signed_decimal(n as int),
{
    if n < 0 {
        let m: u64 = (-(n as i128)) as u64;
        let mut r = String::new();
        r.push('-');
        assert(r@ =~= seq!['-']);
        push_decimal(&mut r, m);
        r
    } else {
        u64_text(n as u64)
    }
}

/// The value of a run of decimal digits that fits in 32 bits.
pub fn parse_u32(s: &str) -> (r: Option<u32>)
    requires
        all_digits(s@),
    ensures
        match r {
            Some(n) => s@.len() > 0 && numeral_value(s@) == n,
            None => s@.len() == 0 || numeral_value(s@) > u32::MAX,
        },
{
    let v = text::chars_of(s);
    if v.len() == 0 {
        return None;
    }
    let mut n: u64 = 0;
    let mut i: usize = 0;
    while i < v.len()
        invariant
            i <= v@.len(),
            v@ == s@,
            all_digits(v@),
            n == numeral_value(v@.take(i as int)),
            n <= u32::MAX,
        decreases v@.len() - i,
    {
        assert(text::is_digit(v@[i as int]));
        let d: u64 = (v[i] as u32 - 48) as u64;
        let ghost next = v@.take(i + 1);
        assert(next.drop_last() =~= v@.take(i as int));
        n = n * 10 + d;
        i = i + 1;
        if n > u32::MAX as u64 {
            proof {
                lemma_value_monotone(v@, i as int);
            }
            return None;
        }
    }
    assert(v@.take(i as int) =~= v@);
    Some(n as u32)
}

proof fn lemma_value_monotone(s: Seq<char>, k: int)
    requires
        0 <= k <= s.len(),
    ensures
        numeral_value(s.take(k)) <= numeral_value(s),
    decreases s.len() - k,
{
    if k < s.len() {
        lemma_value_monotone(s, k + 1);
        assert(s.take(k + 1).drop_last() =~= s.take(k));
    } else {
        assert(s.take(k) =~= s);
    }
}

// ── Laws ──

/// A numeral has no leading zeros.
pub proof fn numerals_have_no_leading_zeros(n: nat)
    ensures
        decimal(n).len() > 0,
        n > 0 ==> decimal(n)[0] != '0',
        n < 10 ==> decimal(n).len() == 1,
    decreases n,
{
    if n >= 10 {
        numerals_have_no_leading_zeros(n / 10);
        assert(decimal(n)[0] == decimal(n / 10)[0]);
    } else {
        assert(digit(n) as nat == 48 + n);
    }
}

/// A number below zero has a minus sign and the numeral of what it lacks; any
/// other has its numeral.
pub proof fn signs_are_told(n: int)
    ensures
        n >= 0 ==> signed_decimal(n) == decimal(n as nat),
        n < 0 ==> signed_decimal(n)[0] == '-' && signed_decimal(n).drop_first() == decimal(
            (-n) as nat,
        ),
{
    if n < 0 {
        assert(signed_decimal(n).drop_first() =~= decimal((-n) as nat));
    }
}

} // verus!
