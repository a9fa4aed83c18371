//! Decimal rendering of unsigned integers.
//!
//! Document identifiers are the decimal text of the clock reading taken at
//! creation; this module defines that text form and proves it injective,
//! which is what makes identifiers from distinct instants distinct.

use vstd::prelude::*;

verus! {

/// The character for a single decimal digit.
pub open spec fn digit_char(d: int) -> char {
    if d == 0 {
        '0'
    } else if d == 1 {
        '1'
    } else if d == 2 {
        '2'
    } else if d == 3 {
        '3'
    } else if d == 4 {
        '4'
    } else if d == 5 {
        '5'
    } else if d == 6 {
        '6'
    } else if d == 7 {
        '7'
    } else if d == 8 {
        '8'
    } else {
        '9'
    }
}

/// The decimal text of `n`: most significant digit first, no leading zeros
/// (a single `'0'` for zero itself).
pub open spec fn dec_str(n: nat) -> Seq<char>
    decreases n,
{
    if n < 10 {
        seq![digit_char(n as int)]
    } else {
        dec_str((n / 10) as nat).push(digit_char((n % 10) as int))
    }
}

/// The decimal text is never empty, and numbers of ten or more take at
/// least two digits.
pub proof fn lemma_dec_str_len(n: nat)
    ensures
        dec_str(n).len() >= 1,
        n >= 10 ==> dec_str(n).len() >= 2,
    decreases n,
{
    if n >= 10 {
        lemma_dec_str_len((n / 10) as nat);
    }
}

/// Distinct numbers have distinct decimal texts.
pub proof fn lemma_dec_str_injective(a: nat, b: nat)
    requires
        a != b,
    ensures
        dec_str(a) != dec_str(b),
    decreases a + b,
{
    if a < 10 && b < 10 {
        assert(dec_str(a)[0] == digit_char(a as int));
        assert(dec_str(b)[0] == digit_char(b as int));
    } else if a < 10 {
        lemma_dec_str_len(a);
        lemma_dec_str_len(b);
    } else if b < 10 {
        lemma_dec_str_len(a);
        lemma_dec_str_len(b);
    } else {
        let qa = (a / 10) as nat;
        let qb = (b / 10) as nat;
        let ra = (a % 10) as int;
        let rb = (b % 10) as int;
        if ra != rb {
            assert(dec_str(a).last() == digit_char(ra));
            assert(dec_str(b).last() == digit_char(rb));
        } else {
            assert(qa != qb) by {
                assert(a == 10 * qa + ra);
                assert(b == 10 * qb + rb);
            }
            lemma_dec_str_injective(qa, qb);
            assert(dec_str(a).drop_last() == dec_str(qa));
            assert(dec_str(b).drop_last() == dec_str(qb));
        }
    }
}

/// The text of one digit, as a borrowed string.
fn digit_str(d: u64) -> (r: &'static str)
    requires
        d < 10,
    ensures
        r@ == seq![digit_char(d as int)],
{
    proof {
        reveal_strlit("0");
        reveal_strlit("1");
        reveal_strlit("2");
        reveal_strlit("3");
        reveal_strlit("4");
        reveal_strlit("5");
        reveal_strlit("6");
        reveal_strlit("7");
        reveal_strlit("8");
        reveal_strlit("9");
    }
    let r: &'static str = match d {
        0 => "0",
        1 => "1",
        2 => "2",
        3 => "3",
        4 => "4",
        5 => "5",
        6 => "6",
        7 => "7",
        8 => "8",
        _ => "9",
    };
    proof {
        assert(r@ =~= seq![digit_char(d as int)]);
    }
    r
}

/// Render `n` in decimal.
pub fn u64_to_dec(n: u64) -> (r: String)
    ensures
        r@ == dec_str(n as nat),
    decreases n,
{
    if n < 10 {
        String::from_str(digit_str(n))
    } else {
        let mut s = u64_to_dec(n / 10);
        s.append(digit_str(n % 10));
        proof {
            assert(s@ =~= dec_str(n as nat));
        }
        s
    }
}

} // verus!
