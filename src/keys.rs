//! Dotted keys and zero-padded decimal index segments.
use vstd::prelude::*;
use vstd::string::*;

verus! {

/// The character of a decimal digit.
pub open spec fn digit_char(d: nat) -> char {
    if d == 0 { '0' }
    else if d == 1 { '1' }
    else if d == 2 { '2' }
    else if d == 3 { '3' }
    else if d == 4 { '4' }
    else if d == 5 { '5' }
    else if d == 6 { '6' }
    else if d == 7 { '7' }
    else if d == 8 { '8' }
    else { '9' }
}

/// Number of decimal digits of `n` (at least one).
pub open spec fn num_digits(n: nat) -> nat
    decreases n,
{
    if n < 10 { 1 } else { 1 + num_digits(n / 10) }
}

/// The last `w` decimal digits of `n`, most significant first, so that
/// `padded(n, num_digits(m))` is `n` written with leading zeros to the
/// width of `m`.
pub open spec fn padded(n: nat, w: nat) -> Seq<char>
    decreases w,
{
    if w == 0 {
        Seq::empty()
    } else {
        padded(n / 10, (w - 1) as nat).push(digit_char(n % 10))
    }
}

/// `key.` followed by the index written to width `w`.
pub open spec fn indexed_key(key: Seq<char>, idx: nat, w: nat) -> Seq<char> {
    key + seq!['.'] + padded(idx, w)
}

fn digit_str(d: usize) -> (r: &'static str)
    requires
        d < 10,
    ensures
        r@ == seq![digit_char(d as nat)],
{
    proof {
        reveal_strlit("0");
        reveal_strlit("1");
        reveal_strlit("2");
        reveal_strlit("3");
        reveal_strlit("4");
        reveal_strlit("5");
        reveal_strlit("6");
        reveal_strlit("7");
        reveal_strlit("8");
        reveal_strlit("9");
    }
    if d == 0 { "0" }
    else if d == 1 { "1" }
    else if d == 2 { "2" }
    else if d == 3 { "3" }
    else if d == 4 { "4" }
    else if d == 5 { "5" }
    else if d == 6 { "6" }
    else if d == 7 { "7" }
    else if d == 8 { "8" }
    else { "9" }
}

proof fn lemma_num_digits_bound(n: nat)
    ensures
        n >= 1 ==> num_digits(n) <= n,
    decreases n,
{
    if n >= 10 {
        lemma_num_digits_bound(n / 10);
    }
}

/// Counts the decimal digits of `n`.
pub fn digit_count(n: usize) -> (r: usize)
    ensures
        r as nat == num_digits(n as nat),
        1 <= r,
{
    proof {
        lemma_num_digits_bound(n as nat);
    }
    let mut m: usize = n;
    let mut c: usize = 1;
    while m >= 10
        invariant
            c + num_digits(m as nat) == 1 + num_digits(n as nat),
            1 <= c,
            n >= 1 ==> num_digits(n as nat) <= n,
            m <= n,
        decreases m,
    {
        proof {
            reveal_with_fuel(num_digits, 2);
        }
        m = m / 10;
        c = c + 1;
    }
    c
}

/// Appends `n` written with exactly `w` digits (leading zeros added, higher
/// digits dropped) to `s`.
pub fn push_padded(s: &mut String, n: usize, w: usize)
    ensures
        final(s)@ == old(s)@ + padded(n as nat, w as nat),
    decreases w,
{
    if w > 0 {
        push_padded(s, n / 10, w - 1);
        s.append(digit_str(n % 10));
        proof {
            assert(final(s)@ =~= old(s)@ + padded(n as nat, w as nat));
        }
    }
}

} // verus!
