//! Durations as text.
//!
//! Seconds are shown with one decimal of the binary64 number that is nearest
//! to the quotient. What that number is, is worked out in integers.
use vstd::prelude::*;
use crate::number;
use crate::text;

verus! {

/// Two to the power of `n`.
pub open spec fn two_to(n: nat) -> nat
    decreases n,
{
    if n == 0 {
        1
    } else {
        2 * two_to((n - 1) as nat)
    }
}

/// The number of binary digits of `n`.
pub open spec fn size(n: nat) -> nat
    decreases n,
{
    if n == 0 {
        0
    } else {
        1 + size(n / 2)
    }
}

/// The integer nearest to `n / d`, of two the even one.
pub open spec fn nearest(n: nat, d: nat) -> nat {
    let q = n / d;
    let r = n % d;
    if 2 * r > d || (2 * r == d && q % 2 == 1) {
        q + 1
    } else {
        q
    }
}

/// The number of 53 binary digits that is nearest to `n`.
pub open spec fn as_double(n: nat) -> nat {
    if size(n) <= 53 {
        n
    } else {
        let s = two_to((size(n) - 53) as nat);
        nearest(n, s) * s
    }
}

/// The tenths of a second in the binary64 quotient of `ms` and a thousand.
pub open spec fn tenths(ms: nat) -> nat {
    let a = as_double(ms);
    let b = size(a / 1000);
    if b <= 53 {
        let s = two_to((53 - b) as nat);
        nearest(10 * nearest(a * s, 1000), s)
    } else {
        let s = two_to((b - 53) as nat);
        10 * (nearest(a, 1000 * s) * s)
    }
}

/// A duration as text: from a second on in seconds, below in milliseconds.
pub open spec fn shown(ms: i64) -> Seq<char> {
    if ms >= 1000 {
        let t = tenths(ms as nat);
        number::decimal(t / 10) + "."@ + number::decimal(t % 10) + "s"@
    } else {
        number::signed_decimal(ms as int) + "ms"@
    }
}

proof fn lemma_size(n: nat)
    ensures
        n < two_to(size(n)),
        n > 0 ==> two_to((size(n) - 1) as nat) <= n,
    decreases n,
{
    if n > 0 {
        lemma_size(n / 2);
    }
}

proof fn lemma_two_to_grows(a: nat, b: nat)
    requires
        a <= b,
    ensures
        1 <= two_to(a) <= two_to(b),
    decreases b,
{
    if b > 0 {
        if a < b {
            lemma_two_to_grows(a, (b - 1) as nat);
        } else {
            lemma_two_to_grows((a - 1) as nat, (b - 1) as nat);
        }
    }
}

proof fn lemma_two_to_add(a: nat, b: nat)
    ensures
        two_to(a + b) == two_to(a) * two_to(b),
    decreases a,
{
    if a > 0 {
        lemma_two_to_add((a - 1) as nat, b);
        assert(two_to(a + b) == 2 * two_to((a - 1 + b) as nat));
        assert(2 * (two_to((a - 1) as nat) * two_to(b)) == (2 * two_to((a - 1) as nat)) * two_to(b))
            by (nonlinear_arith);
    } else {
        assert(two_to(0) * two_to(b) == two_to(b)) by (nonlinear_arith)
            requires
                two_to(0) == 1,
        ;
    }
}

proof fn lemma_powers()
    ensures
        two_to(10) == 0x400,
        two_to(11) == 0x800,
        two_to(53) == 0x20_0000_0000_0000,
        two_to(54) == 0x40_0000_0000_0000,
        two_to(63) == 0x8000_0000_0000_0000,
        two_to(64) == 0x1_0000_0000_0000_0000,
{
    reveal_with_fuel(two_to, 12);
    assert(two_to(10) == 0x400);
    assert(two_to(11) == 0x800);
    lemma_two_to_add(10, 10);
    assert(two_to(20) == 0x10_0000);
    lemma_two_to_add(20, 20);
    assert(two_to(40) == 0x100_0000_0000);
    lemma_two_to_add(40, 10);
    assert(two_to(50) == 0x4_0000_0000_0000);
    assert(two_to(3) == 8);
    assert(two_to(4) == 16);
    lemma_two_to_add(50, 3);
    assert(two_to(53) == 0x4_0000_0000_0000 * 8);
    lemma_two_to_add(50, 4);
    assert(two_to(54) == 0x4_0000_0000_0000 * 16);
    lemma_two_to_add(53, 10);
    lemma_two_to_add(53, 11);
}

fn bit_size(n: u64) -> (r: u32)
    ensures
        r == size(n as nat),
        r <= 64,
{
    let mut left: u64 = n;
    let mut r: u32 = 0;
    let ghost mut high: nat = 0x1_0000_0000_0000_0000;
    proof {
        lemma_powers();
    }
    while left > 0
        invariant
            r + size(left as nat) == size(n as nat),
            r <= 64,
            high == two_to((64 - r) as nat),
            left < high,
        decreases left,
    {
        proof {
            if r == 64 {
                assert(two_to(0) == 1);
            }
            high = two_to((64 - r - 1) as nat);
        }
        left = left / 2;
        r = r + 1;
    }
    r
}

fn power(n: u32) -> (r: u128)
    requires
        n <= 64,
    ensures
        r == two_to(n as nat),
        1 <= r <= 0x1_0000_0000_0000_0000,
{
    let mut r: u128 = 1;
    let mut i: u32 = 0;
    while i < n
        invariant
            i <= n <= 64,
            r == two_to(i as nat),
        decreases n - i,
    {
        proof {
            lemma_powers();
            lemma_two_to_grows(i as nat, 63);
        }
        r = r * 2;
        i = i + 1;
    }
    proof {
        lemma_powers();
        lemma_two_to_grows(n as nat, 64);
    }
    r
}

fn round_quotient(n: u128, d: u128) -> (r: u128)
    requires
        2 <= d <= 0x1_0000_0000_0000_0000_0000,
    ensures
        r == nearest(n as nat, d as nat),
        r <= n / d + 1,
{
    let q: u128 = n / d;
    let rem: u128 = n % d;
    assert(q < u128::MAX) by (nonlinear_arith)
        requires
            q == n / d,
            d >= 2,
            n <= u128::MAX,
    ;
    if 2 * rem > d || (2 * rem == d && q % 2 == 1) {
        q + 1
    } else {
        q
    }
}

fn to_double(n: u64) -> (r: u128)
    requires
        n < 0x8000_0000_0000_0000,
    ensures
        r == as_double(n as nat),
        r <= 0x8000_0000_0000_0000,
        n >= 1000 ==> r >= 1000,
{
    let b: u32 = bit_size(n);
    if b <= 53 {
        n as u128
    } else {
        proof {
            lemma_size(n as nat);
            lemma_powers();
            if b >= 64 {
                lemma_two_to_grows(63, (b - 1) as nat);
            }
        }
        assert(b <= 63);
        let e: u32 = b - 53;
        let s: u128 = power(e);
        proof {
            lemma_two_to_grows(1, e as nat);
            assert(two_to(1) == 2 * two_to(0));
            lemma_two_to_add(e as nat, 53);
            lemma_two_to_add(e as nat, 52);
            lemma_two_to_add(52, 1);
            lemma_two_to_grows(b as nat, 63);
        }
        let m: u128 = round_quotient(n as u128, s);
        proof {
            let nn = n as int;
            let ss = s as int;
            let q = nn / ss;
            // n < 2^b = s * 2^53, so the quotient is below 2^53.
            assert(q < two_to(53)) by (nonlinear_arith)
                requires
                    nn < ss * two_to(53),
                    ss > 0,
                    q == nn / ss,
            ;
            assert(m <= two_to(53));
            assert(m * s <= two_to(53) * s) by (nonlinear_arith)
                requires
                    m <= two_to(53),
                    s >= 1,
            ;
            assert(two_to(53) * s == s * two_to(53)) by (nonlinear_arith);
            assert(q >= two_to(52)) by (nonlinear_arith)
                requires
                    nn >= ss * two_to(52),
                    ss > 0,
                    q == nn / ss,
            ;
            assert(two_to(53) == 2 * two_to(52));
            assert(m >= q);
            assert(m * s >= m) by (nonlinear_arith)
                requires
                    s >= 1,
                    m >= 0,
            ;
        }
        m * s
    }
}

fn count_tenths(ms: u64) -> (r: u64)
    requires
        1000 <= ms < 0x8000_0000_0000_0000,
    ensures
        r == tenths(ms as nat),
{
    let a: u128 = to_double(ms);
    let whole: u64 = (a / 1000) as u64;
    let b: u32 = bit_size(whole);
    proof {
        lemma_powers();
        lemma_size(whole as nat);
    }
    assert(b <= 54) by {
        if b >= 55 {
            lemma_two_to_grows(54, (b - 1) as nat);
        }
    }
    assert(b >= 1);
    if b <= 53 {
        let s: u128 = power(53 - b);
        proof {
            lemma_two_to_add((53 - b) as nat, b as nat);
            lemma_two_to_grows((53 - b) as nat, 52);
            lemma_two_to_add(52, 1);
            assert(two_to(1) == 2 * two_to(0));
            // a < 1000 * 2^b, so a * s < 1000 * 2^53.
            let aa = a as int;
            let ss = s as int;
            let hb = two_to(b as nat) as int;
            assert(aa < 1000 * hb);
            assert(aa * ss < 1000 * (hb * ss)) by (nonlinear_arith)
                requires
                    aa < 1000 * hb,
                    ss >= 1,
            ;
            assert(hb * ss == ss * hb) by (nonlinear_arith);
        }
        let m: u128 = round_quotient(a * s, 1000);
        assert(m <= 0x20_0000_0000_0000);
        let t: u128 = if s == 1 {
            proof {
                assert((10 * m as nat) / 1 == 10 * m as nat);
                assert((10 * m as nat) % 1 == 0);
            }
            10 * m
        } else {
            round_quotient(10 * m, s)
        };
        proof {
            let n10 = 10 * m as int;
            let ss = s as int;
            assert(n10 / ss <= n10) by (nonlinear_arith)
                requires
                    n10 >= 0,
                    ss >= 1,
            ;
        }
        t as u64
    } else {
        let s: u128 = power(b - 53);
        proof {
            assert(two_to(1) == 2 * two_to(0));
        }
        assert(s == 2);
        let m: u128 = round_quotient(a, 1000 * s);
        (10 * (m * s)) as u64
    }
}

pub fn format_duration(ms: i64) -> (r: String)
    ensures
        r@ == shown(ms),
{
    if ms >= 1000 {
        let t: u64 = count_tenths(ms as u64);
        text::cat4(number::u64_text(t / 10).as_str(), ".", number::u64_text(t % 10).as_str(), "s")
    } else {
        text::cat2(number::i64_text(ms).as_str(), "ms")
    }
}

// ── Laws ──

/// Below a second a duration is told in milliseconds, exactly; from a second on
/// in seconds, with one decimal.
pub proof fn short_durations_are_exact(ms: i64)
    ensures
        ms < 1000 ==> shown(ms) == number::signed_decimal(ms as int) + "ms"@,
        ms >= 1000 ==> exists|seconds: nat, tenth: nat|
            #![trigger number::decimal(seconds), number::decimal(tenth)]
            tenth < 10 && shown(ms) == number::decimal(seconds) + "."@ + number::decimal(tenth) + "s"@
                && 10 * seconds + tenth == tenths(ms as nat),
{
    if ms >= 1000 {
        let t = tenths(ms as nat);
        assert(t % 10 < 10);
        assert(10 * (t / 10) + t % 10 == t);
        assert(shown(ms) == number::decimal(t / 10) + "."@ + number::decimal(t % 10) + "s"@);
    }
}

/// The nearest integer to a quotient is at most a half away from it.
pub proof fn nearest_is_near(n: nat, d: nat)
    requires
        d > 0,
    ensures
        2 * n <= 2 * d * nearest(n, d) + d,
        2 * d * nearest(n, d) <= 2 * n + d,
{
    let q = n / d;
    let r = n % d;
    assert(n == d * q + r && r < d) by (nonlinear_arith)
        requires
            q == n / d,
            r == n % d,
            d > 0,
    ;
    assert(2 * d * (q + 1) == 2 * (d * q) + 2 * d) by (nonlinear_arith);
    assert(2 * d * q == 2 * (d * q)) by (nonlinear_arith);
}

/// A duration of some seconds is told to the nearest tenth.
pub proof fn durations_are_near(ms: nat)
    requires
        size(ms) <= 53,
        size(ms / 1000) <= 43,
    ensures
        ms <= 100 * tenths(ms) + 50,
        100 * tenths(ms) <= ms + 50,
{
    let b = size(ms / 1000);
    let s = two_to((53 - b) as nat);
    lemma_two_to_grows(10, (53 - b) as nat);
    lemma_powers();
    assert(s >= 1024);
    let q = nearest(ms * s, 1000);
    let t = nearest(10 * q, s);
    nearest_is_near(ms * s, 1000);
    nearest_is_near(10 * q, s);
    assert(t == tenths(ms));
    let st = s * t;
    let ps = ms * s;
    assert(2 * ps <= 2000 * q + 1000);
    assert(2000 * q <= 2 * ps + 1000);
    assert(2 * s * t == 2 * st) by (nonlinear_arith)
        requires
            st == s * t,
    ;
    assert(100 * st + 50 * s + 500 >= ps);
    assert(ps + 50 * s + 500 >= 100 * st);
    assert(ms <= 100 * t + 50) by (nonlinear_arith)
        requires
            st == s * t,
            ps == ms * s,
            100 * st + 50 * s + 500 >= ps,
            s >= 1024,
    ;
    assert(100 * t <= ms + 50) by (nonlinear_arith)
        requires
            st == s * t,
            ps == ms * s,
            ps + 50 * s + 500 >= 100 * st,
            s >= 1024,
    ;
}

} // verus!
