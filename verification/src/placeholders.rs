//! Numbered SQL parameter placeholders (`?1`, `?2`, ...), written in
//! decimal, for statements whose parameter count depends on the input.

use vstd::prelude::*;

verus! {

/// The character of a decimal digit.
pub open spec fn digit_char(d: nat) -> char {
    if d == 0 { '0' }
    else if d == 1 { '1' }
    else if d == 2 { '2' }
    else if d == 3 { '3' }
    else if d == 4 { '4' }
    else if d == 5 { '5' }
    else if d == 6 { '6' }
    else if d == 7 { '7' }
    else if d == 8 { '8' }
    else { '9' }
}

/// A number written in decimal, without leading zeros.
pub open spec fn decimal(n: nat) -> Seq<char>
    decreases n,
{
    if n < 10 {
        seq![digit_char(n)]
    } else {
        decimal(n / 10) + seq![digit_char(n % 10)]
    }
}

/// The placeholder for parameter `n`.
pub open spec fn placeholder(n: nat) -> Seq<char> {
    seq!['?'] + decimal(n)
}

/// `count` placeholders numbered from `first` on, joined by `separator`.
pub open spec fn placeholders_spec(first: nat, count: nat, separator: Seq<char>) -> Seq<char>
    decreases count,
{
    if count == 0 {
        Seq::empty()
    } else if count == 1 {
        placeholder(first)
    } else {
        placeholders_spec(first, (count - 1) as nat, separator) + separator + placeholder((first + count - 1) as nat)
    }
}

/// The string of one decimal digit.
fn digit_str(d: u64) -> (r: &'static str)
    requires
        d < 10,
    ensures
        r@ == seq![digit_char(d as nat)],
{
    proof {
        reveal_strlit("0");
        reveal_strlit("1");
        reveal_strlit("2");
        reveal_strlit("3");
        reveal_strlit("4");
        reveal_strlit("5");
        reveal_strlit("6");
        reveal_strlit("7");
        reveal_strlit("8");
        reveal_strlit("9");
    }
    let r = if d == 0 { "0" }
    else if d == 1 { "1" }
    else if d == 2 { "2" }
    else if d == 3 { "3" }
    else if d == 4 { "4" }
    else if d == 5 { "5" }
    else if d == 6 { "6" }
    else if d == 7 { "7" }
    else if d == 8 { "8" }
    else { "9" };
    assert(r@ =~= seq![digit_char(d as nat)]);
    r
}

/// Appends `n` in decimal.
pub fn push_decimal(s: &mut String, n: u64)
    ensures
        final(s)@ == old(s)@ + decimal(n as nat),
    decreases n,
{
    if n >= 10 {
        push_decimal(s, n / 10);
    }
    s.append(digit_str(n % 10));
    assert(n >= 10 ==> (old(s)@ + decimal((n / 10) as nat)) + seq![digit_char((n % 10) as nat)] =~= old(s)@
        + decimal(n as nat));
}

/// Appends the placeholder for parameter `n`.
pub fn push_placeholder(s: &mut String, n: u64)
    ensures
        final(s)@ == old(s)@ + placeholder(n as nat),
{
    proof {
        reveal_strlit("?");
    }
    s.append("?");
    push_decimal(s, n);
    assert(old(s)@ + seq!['?'] + decimal(n as nat) =~= old(s)@ + placeholder(n as nat));
}

/// `count` placeholders numbered from `first` on, joined by `separator`,
/// as the statements with a variable number of parameters list them.
pub fn numbered_placeholders(first: u64, count: u64, separator: &str) -> (r: String)
    requires
        first + count <= u64::MAX,
    ensures
        r@ == placeholders_spec(first as nat, count as nat, separator@),
{
    let mut s = String::new();
    let mut i: u64 = 0;
    while i < count
        invariant
            first + count <= u64::MAX,
            0 <= i <= count,
            s@ == placeholders_spec(first as nat, i as nat, separator@),
        decreases count - i,
    {
        if i > 0 {
            s.append(separator);
        }
        push_placeholder(&mut s, first + i);
        assert(s@ =~= placeholders_spec(first as nat, (i + 1) as nat, separator@));
        i = i + 1;
    }
    s
}

} // verus!
