//! Decimal rendering of counters and elapsed seconds, with the digit-count
//! and left-padding facts the tracker's column alignment rests on.

use vstd::prelude::*;
use vstd::arithmetic::div_mod::lemma_div_is_ordered;

verus! {

/// The character of a single decimal digit.
pub open spec fn digit_char(d: int) -> char {
    if d == 0 { '0' }
    else if d == 1 { '1' }
    else if d == 2 { '2' }
    else if d == 3 { '3' }
    else if d == 4 { '4' }
    else if d == 5 { '5' }
    else if d == 6 { '6' }
    else if d == 7 { '7' }
    else if d == 8 { '8' }
    else { '9' }
}

/// The decimal representation of a number, most significant digit first.
pub open spec fn dec_rep(n: nat) -> Seq<char>
    decreases n,
{
    if n < 10 {
        seq![digit_char(n as int)]
    } else {
        dec_rep(n / 10) + seq![digit_char((n % 10) as int)]
    }
}

/// How many digits the decimal representation of a number has.
pub open spec fn num_digits(n: nat) -> nat
    decreases n,
{
    if n < 10 {
        1
    } else {
        1 + num_digits(n / 10)
    }
}

/// The decimal representation has exactly `num_digits` characters.
pub proof fn lemma_dec_rep_len(n: nat)
    ensures
        dec_rep(n).len() == num_digits(n),
    decreases n,
{
    if n >= 10 {
        lemma_dec_rep_len(n / 10);
    }
}

/// Digit counts are monotonic: a number no larger than another has no more
/// digits.
pub proof fn lemma_num_digits_mono(m: nat, n: nat)
    requires
        m <= n,
    ensures
        num_digits(m) <= num_digits(n),
    decreases n,
{
    if n >= 10 && m >= 10 {
        lemma_div_is_ordered(m as int, n as int, 10);
        lemma_num_digits_mono(m / 10, n / 10);
    }
}

/// Digit counts never exceed twenty for a 64-bit number.
pub proof fn lemma_num_digits_bound(n: nat)
    requires
        n <= u64::MAX,
    ensures
        num_digits(n) <= 20,
{
    lemma_num_digits_mono(n, u64::MAX as nat);
    assert(num_digits(1) == 1);
    assert(num_digits(18) == 2);
    assert(num_digits(184) == 3);
    assert(num_digits(1844) == 4);
    assert(num_digits(18446) == 5);
    assert(num_digits(184467) == 6);
    assert(num_digits(1844674) == 7);
    assert(num_digits(18446744) == 8);
    assert(num_digits(184467440) == 9);
    assert(num_digits(1844674407) == 10);
    assert(num_digits(18446744073) == 11);
    assert(num_digits(184467440737) == 12);
    assert(num_digits(1844674407370) == 13);
    assert(num_digits(18446744073709) == 14);
    assert(num_digits(184467440737095) == 15);
    assert(num_digits(1844674407370955) == 16);
    assert(num_digits(18446744073709551) == 17);
    assert(num_digits(184467440737095516) == 18);
    assert(num_digits(1844674407370955161) == 19);
    assert(num_digits(18446744073709551615) == 20);
}

/// A string of `k` spaces.
pub open spec fn spaces(k: nat) -> Seq<char> {
    Seq::new(k, |i: int| ' ')
}

/// The decimal representation of `n`, left-padded with spaces to `width`
/// cells; wider numbers keep their full width.
pub open spec fn padded_dec(n: nat, width: nat) -> Seq<char> {
    if num_digits(n) >= width {
        dec_rep(n)
    } else {
        spaces((width - num_digits(n)) as nat) + dec_rep(n)
    }
}

/// A padded number fills exactly `max(width, num_digits(n))` cells; in a
/// column whose width covers every entry, all entries align.
pub proof fn lemma_padded_len(n: nat, width: nat)
    ensures
        padded_dec(n, width).len() == if num_digits(n) >= width {
            num_digits(n)
        } else {
            width
        },
{
    lemma_dec_rep_len(n);
}

/// The text of one decimal digit.
fn digit_str(d: u64) -> (r: &'static str)
    requires
        d < 10,
    ensures
        r@ == seq![digit_char(d as int)],
{
    let r: &'static str = match d {
        0 => "0",
        1 => "1",
        2 => "2",
        3 => "3",
        4 => "4",
        5 => "5",
        6 => "6",
        7 => "7",
        8 => "8",
        _ => "9",
    };
    proof {
        reveal_strlit("0");
        reveal_strlit("1");
        reveal_strlit("2");
        reveal_strlit("3");
        reveal_strlit("4");
        reveal_strlit("5");
        reveal_strlit("6");
        reveal_strlit("7");
        reveal_strlit("8");
        reveal_strlit("9");
        assert(r@ =~= seq![digit_char(d as int)]);
    }
    r
}

/// Counts the digits of a number.
pub fn count_digits(num: u64) -> (r: usize)
    ensures
        r == num_digits(num as nat),
{
    if num == 0 {
        return 1;
    }
    let ghost orig: nat = num as nat;
    let mut rest = num;
    let mut count: usize = 0;
    while rest > 0
        invariant
            orig <= u64::MAX,
            rest > 0 ==> count + num_digits(rest as nat) == num_digits(orig),
            rest == 0 ==> count == num_digits(orig),
            count <= 20,
        decreases rest,
    {
        proof {
            lemma_num_digits_bound(orig);
        }
        rest = rest / 10;
        count = count + 1;
    }
    count
}

/// Renders a number in decimal.
pub fn u64_string(n: u64) -> (r: String)
    ensures
        r@ == dec_rep(n as nat),
    decreases n,
{
    let d = n % 10;
    let ds = digit_str(d);
    if n < 10 {
        ds.to_owned()
    } else {
        let mut s = u64_string(n / 10);
        s.append(ds);
        s
    }
}

/// Renders a number in decimal, left-padded with spaces to `width` cells.
pub fn pad_u64(n: u64, width: usize) -> (r: String)
    ensures
        r@ == padded_dec(n as nat, width as nat),
{
    let digits = count_digits(n);
    let mut s = String::new();
    let mut i = digits;
    while i < width
        invariant
            digits <= i,
            digits == num_digits(n as nat),
            i <= width || i == digits,
            s@ =~= spaces((i - digits) as nat),
        decreases width - i,
    {
        s.append(" ");
        proof {
            reveal_strlit(" ");
            assert(s@ =~= spaces((i + 1 - digits) as nat));
        }
        i = i + 1;
    }
    let tail = u64_string(n);
    s.append(tail.as_str());
    proof {
        if num_digits(n as nat) >= width {
            assert(s@ =~= padded_dec(n as nat, width as nat));
        } else {
            assert(s@ =~= padded_dec(n as nat, width as nat));
        }
    }
    s
}

} // verus!
