//! Decimal rendering of the counters that make colliding slugs unique, with
//! the injectivity fact the collision argument rests on.

use vstd::prelude::*;

verus! {

pub open spec fn digit_char(d: nat) -> char {
    if d == 0 {
        '0'
    } else if d == 1 {
        '1'
    } else if d == 2 {
        '2'
    } else if d == 3 {
        '3'
    } else if d == 4 {
        '4'
    } else if d == 5 {
        '5'
    } else if d == 6 {
        '6'
    } else if d == 7 {
        '7'
    } else if d == 8 {
        '8'
    } else {
        '9'
    }
}

pub open spec fn dec_digits(k: nat) -> Seq<char>
    decreases k,
{
    if k == 0 {
        Seq::<char>::empty()
    } else {
        dec_digits(k / 10).push(digit_char(k % 10))
    }
}

/// The usual decimal rendering, without leading zeros.
pub open spec fn dec_string(k: nat) -> Seq<char> {
    if k == 0 {
        seq!['0']
    } else {
        dec_digits(k)
    }
}

pub proof fn lemma_dec_digits_injective(a: nat, b: nat)
    requires
        dec_digits(a) == dec_digits(b),
    ensures
        a == b,
    decreases a,
{
    if a == 0 {
        if b != 0 {
            assert(dec_digits(b).len() >= 1);
        }
    } else if b == 0 {
        assert(dec_digits(a).len() >= 1);
    } else {
        assert(dec_digits(a).last() == digit_char(a % 10));
        assert(dec_digits(b).last() == digit_char(b % 10));
        assert(a % 10 == b % 10);
        assert(dec_digits(a).drop_last() =~= dec_digits(a / 10));
        assert(dec_digits(b).drop_last() =~= dec_digits(b / 10));
        lemma_dec_digits_injective(a / 10, b / 10);
    }
}

/// Two distinct counters never render to the same text.
pub proof fn lemma_dec_string_injective(a: nat, b: nat)
    requires
        dec_string(a) == dec_string(b),
    ensures
        a == b,
{
    if a == 0 && b == 0 {
    } else if a == 0 {
        assert(dec_digits(b) == seq!['0']);
        assert(dec_digits(b).last() == digit_char(b % 10));
        assert(digit_char(b % 10) == '0');
        assert(b % 10 == 0);
        assert(dec_digits(b).drop_last() =~= dec_digits(b / 10));
        assert(dec_digits(b / 10) =~= Seq::<char>::empty());
        if b / 10 != 0 {
            assert(dec_digits(b / 10).len() >= 1);
        }
        assert(b == 10 * (b / 10) + b % 10);
    } else if b == 0 {
        assert(dec_digits(a) == seq!['0']);
        assert(dec_digits(a).last() == digit_char(a % 10));
        assert(a % 10 == 0);
        assert(dec_digits(a).drop_last() =~= dec_digits(a / 10));
        if a / 10 != 0 {
            assert(dec_digits(a / 10).len() >= 1);
        }
        assert(a == 10 * (a / 10) + a % 10);
    } else {
        lemma_dec_digits_injective(a, b);
    }
}

fn digit_char_exec(d: u64) -> (r: char)
    requires
        d < 10,
    ensures
        r == digit_char(d as nat),
{
    if d == 0 {
        '0'
    } else if d == 1 {
        '1'
    } else if d == 2 {
        '2'
    } else if d == 3 {
        '3'
    } else if d == 4 {
        '4'
    } else if d == 5 {
        '5'
    } else if d == 6 {
        '6'
    } else if d == 7 {
        '7'
    } else if d == 8 {
        '8'
    } else {
        '9'
    }
}

fn u64_dec_digits(k: u64) -> (r: Vec<char>)
    ensures
        r@ == dec_digits(k as nat),
    decreases k,
{
    if k == 0 {
        Vec::new()
    } else {
        let mut r = u64_dec_digits(k / 10);
        let d = digit_char_exec(k % 10);
        r.push(d);
        r
    }
}

/// The decimal text of `k`.
pub fn u64_to_dec(k: u64) -> (r: Vec<char>)
    ensures
        r@ == dec_string(k as nat),
{
    if k == 0 {
        let mut r: Vec<char> = Vec::new();
        r.push('0');
        proof {
            assert(r@ =~= seq!['0']);
        }
        r
    } else {
        u64_dec_digits(k)
    }
}

} // verus!
