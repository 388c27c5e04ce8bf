//! Decimal digit strings: the value of a digit sequence, the canonical
//! decimal rendering of a number, and the facts tying the two together.

use vstd::prelude::*;

verus! {

/// A decimal digit character.
pub open spec fn is_digit(c: char) -> bool {
    '0' as u32 <= c as u32 && c as u32 <= '9' as u32
}

/// Numeric value of a digit character.
pub open spec fn digit_val(c: char) -> nat {
    (c as u32 - '0' as u32) as nat
}

/// Every character of the sequence is a decimal digit.
pub open spec fn all_digits(s: Seq<char>) -> bool {
    forall|i: int| 0 <= i < s.len() ==> is_digit(#[trigger] s[i])
}

/// Base-10 value of a digit sequence (most significant digit first).
pub open spec fn digits_value(s: Seq<char>) -> nat
    decreases s.len(),
{
    if s.len() == 0 {
        0
    } else {
        digits_value(s.drop_last()) * 10 + digit_val(s.last())
    }
}

/// The digit character for a value below ten.
pub open spec fn digit_char(d: nat) -> char {
    if d == 0 {
        '0'
    } else if d == 1 {
        '1'
    } else if d == 2 {
        '2'
    } else if d == 3 {
        '3'
    } else if d == 4 {
        '4'
    } else if d == 5 {
        '5'
    } else if d == 6 {
        '6'
    } else if d == 7 {
        '7'
    } else if d == 8 {
        '8'
    } else {
        '9'
    }
}

/// Canonical decimal rendering of a number: no sign, no leading zeros.
pub open spec fn dec_rep(n: nat) -> Seq<char>
    decreases n,
{
    if n < 10 {
        seq![digit_char(n)]
    } else {
        dec_rep(n / 10) + seq![digit_char(n % 10)]
    }
}

/// The canonical rendering consists of digits, is non-empty, and reads
/// back to the number it renders.
pub proof fn lemma_dec_rep(n: nat)
    ensures
        all_digits(dec_rep(n)),
        dec_rep(n).len() >= 1,
        digits_value(dec_rep(n)) == n,
    decreases n,
{
    if n < 10 {
        assert(dec_rep(n) =~= seq![digit_char(n)]);
        assert(seq![digit_char(n)].drop_last() =~= Seq::<char>::empty());
        assert(digits_value(Seq::<char>::empty()) == 0);
        assert(digits_value(seq![digit_char(n)]) == digit_val(digit_char(n)));
    } else {
        lemma_dec_rep(n / 10);
        let rec = dec_rep(n / 10);
        let whole = dec_rep(n);
        assert(whole == rec + seq![digit_char(n % 10)]);
        assert(whole.drop_last() =~= rec);
        assert(whole.last() == digit_char(n % 10));
        assert(digits_value(whole) == digits_value(rec) * 10 + digit_val(digit_char(n % 10)));
        assert(digit_val(digit_char(n % 10)) == n % 10);
        assert((n / 10) * 10 + n % 10 == n) by {
            vstd::arithmetic::div_mod::lemma_fundamental_div_mod(n as int, 10);
        }
        assert forall|i: int| 0 <= i < whole.len() implies is_digit(#[trigger] whole[i]) by {
            if i < rec.len() {
                assert(whole[i] == rec[i]);
            } else {
                assert(whole[i] == digit_char(n % 10));
            }
        }
    }
}

/// The value of a prefix never exceeds the value of the whole sequence.
pub proof fn lemma_digits_value_prefix(s: Seq<char>, j: int)
    requires
        0 <= j <= s.len(),
    ensures
        digits_value(s.take(j)) <= digits_value(s),
    decreases s.len(),
{
    if j == s.len() {
        assert(s.take(j) =~= s);
    } else {
        assert(s.drop_last().take(j) =~= s.take(j));
        lemma_digits_value_prefix(s.drop_last(), j);
        assert(digits_value(s) == digits_value(s.drop_last()) * 10 + digit_val(s.last()));
        assert(digits_value(s.drop_last()) * 10 >= digits_value(s.drop_last()));
    }
}

/// Appends the decimal rendering of `n` to `out`.
pub fn append_dec(n: usize, out: &mut String)
    ensures
        final(out)@ == old(out)@ + dec_rep(n as nat),
    decreases n,
{
    if n >= 10 {
        append_dec(n / 10, out);
    }
    let d: usize = n % 10;
    proof {
        reveal_strlit("0");
        reveal_strlit("1");
        reveal_strlit("2");
        reveal_strlit("3");
        reveal_strlit("4");
        reveal_strlit("5");
        reveal_strlit("6");
        reveal_strlit("7");
        reveal_strlit("8");
        reveal_strlit("9");
    }
    if d == 0 {
        out.append("0");
        proof { assert("0"@ =~= seq![digit_char(d as nat)]); }
    } else if d == 1 {
        out.append("1");
        proof { assert("1"@ =~= seq![digit_char(d as nat)]); }
    } else if d == 2 {
        out.append("2");
        proof { assert("2"@ =~= seq![digit_char(d as nat)]); }
    } else if d == 3 {
        out.append("3");
        proof { assert("3"@ =~= seq![digit_char(d as nat)]); }
    } else if d == 4 {
        out.append("4");
        proof { assert("4"@ =~= seq![digit_char(d as nat)]); }
    } else if d == 5 {
        out.append("5");
        proof { assert("5"@ =~= seq![digit_char(d as nat)]); }
    } else if d == 6 {
        out.append("6");
        proof { assert("6"@ =~= seq![digit_char(d as nat)]); }
    } else if d == 7 {
        out.append("7");
        proof { assert("7"@ =~= seq![digit_char(d as nat)]); }
    } else if d == 8 {
        out.append("8");
        proof { assert("8"@ =~= seq![digit_char(d as nat)]); }
    } else {
        out.append("9");
        proof { assert("9"@ =~= seq![digit_char(d as nat)]); }
    }
    proof {
        if n >= 10 {
            assert(dec_rep(n as nat) == dec_rep(n as nat / 10) + seq![digit_char(n as nat % 10)]);
            assert(out@ =~= old(out)@ + dec_rep(n as nat));
        } else {
            assert(dec_rep(n as nat) == seq![digit_char(n as nat)]);
            assert(out@ =~= old(out)@ + dec_rep(n as nat));
        }
    }
}

/// Renders `n` in decimal.
pub fn usize_to_string(n: usize) -> (r: String)
    ensures
        r@ == dec_rep(n as nat),
{
    let mut out = String::new();
    append_dec(n, &mut out);
    proof {
        assert(out@ =~= dec_rep(n as nat));
    }
    out
}

} // verus!
