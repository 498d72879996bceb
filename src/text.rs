use vstd::prelude::*;
use vstd::string::StringExecFns;

verus! {

/// The decimal digit character for `d < 10`.
pub open spec fn digit_char(d: nat) -> char {
    seq!['0', '1', '2', '3', '4', '5', '6', '7', '8', '9'][d as int]
}

/// The decimal digits of `n`, most significant first, without leading zeros.
pub open spec fn digits(n: nat) -> Seq<char>
    decreases n,
{
    if n < 10 {
        seq![digit_char(n)]
    } else {
        digits(n / 10).push(digit_char(n % 10))
    }
}

/// The decimal text of `x`, with a leading `-` when it is negative.
pub open spec fn decimal(x: int) -> Seq<char> {
    if x < 0 {
        seq!['-'] + digits((-x) as nat)
    } else {
        digits(x as nat)
    }
}

fn digit_text(d: u64) -> (t: &'static str)
    requires
        d < 10,
    ensures
        t@ == seq![digit_char(d as nat)],
{
    proof {
        reveal_strlit("0");
        reveal_strlit("1");
        reveal_strlit("2");
        reveal_strlit("3");
        reveal_strlit("4");
        reveal_strlit("5");
        reveal_strlit("6");
        reveal_strlit("7");
        reveal_strlit("8");
        reveal_strlit("9");
    }
    let t = if d == 0 {
        "0"
    } else if d == 1 {
        "1"
    } else if d == 2 {
        "2"
    } else if d == 3 {
        "3"
    } else if d == 4 {
        "4"
    } else if d == 5 {
        "5"
    } else if d == 6 {
        "6"
    } else if d == 7 {
        "7"
    } else if d == 8 {
        "8"
    } else {
        "9"
    };
    assert(t@ =~= seq![digit_char(d as nat)]);
    t
}

/// Appends the decimal digits of `n` to `s`.
pub fn append_digits(s: String, n: u64) -> (r: String)
    ensures
        r@ == s@ + digits(n as nat),
    decreases n,
{
    let ghost s0 = s@;
    let s = if n >= 10 {
        append_digits(s, n / 10)
    } else {
        s
    };
    let r = s.concat(digit_text(n % 10));
    assert(r@ =~= s0 + digits(n as nat));
    r
}

/// Appends the decimal text of `x` to `s`.
pub fn append_decimal(s: String, x: i64) -> (r: String)
    ensures
        r@ == s@ + decimal(x as int),
{
    if x < 0 {
        proof {
            reveal_strlit("-");
        }
        let ghost s0 = s@;
        let s = s.concat("-");
        let magnitude: u64 = (0 - (x as i128)) as u64;
        let r = append_digits(s, magnitude);
        assert(r@ =~= s0 + decimal(x as int));
        r
    } else {
        append_digits(s, x as u64)
    }
}

} // verus!
