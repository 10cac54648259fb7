//! Decimal numerals: the value of a run of digit characters, the canonical
//! decimal rendering of an integer, and verified executable conversions
//! between the two.

use vstd::prelude::*;

verus! {

/// Whether `c` is a decimal digit.
pub open spec fn is_digit(c: char) -> bool {
    '0' as u32 <= c as u32 && c as u32 <= '9' as u32
}

/// The numeric value of a digit character.
pub open spec fn digit_val(c: char) -> int {
    c as u32 - '0' as u32
}

/// The digit character for a value below ten.
pub open spec fn digit_char(d: int) -> char {
    (d + '0' as u32) as char
}

/// Whether every character of `s` is a decimal digit.
pub open spec fn all_digits(s: Seq<char>) -> bool {
    forall|i: int| 0 <= i < s.len() ==> is_digit(s[i])
}

/// The value of a digit run read as a base-ten numeral.
pub open spec fn dec_val(s: Seq<char>) -> int
    decreases s.len(),
{
    if s.len() == 0 {
        0
    } else {
        dec_val(s.drop_last()) * 10 + digit_val(s.last())
    }
}

/// The canonical decimal rendering of a nonnegative integer: no sign and no
/// leading zero.
pub open spec fn dec_repr(n: int) -> Seq<char>
    decreases n,
{
    if n < 10 {
        seq![digit_char(n)]
    } else {
        dec_repr(n / 10) + seq![digit_char(n % 10)]
    }
}

/// The decimal rendering of an integer: a leading minus sign when negative.
pub open spec fn int_repr(n: int) -> Seq<char> {
    if n < 0 {
        seq!['-'] + dec_repr(-n)
    } else {
        dec_repr(n)
    }
}

/// A digit run has a nonnegative value.
pub proof fn lemma_dec_val_nonneg(s: Seq<char>)
    requires
        all_digits(s),
    ensures
        dec_val(s) >= 0,
    decreases s.len(),
{
    if s.len() > 0 {
        lemma_dec_val_nonneg(s.drop_last());
    }
}

/// Extending a digit run on the right multiplies its value by ten and adds
/// the new digit.
pub proof fn lemma_dec_val_push(s: Seq<char>, c: char)
    ensures
        dec_val(s.push(c)) == dec_val(s) * 10 + digit_val(c),
{
    assert(s.push(c).drop_last() =~= s);
    assert(s.push(c).last() == c);
}

/// Distinct characters have distinct character codes; the cast to `u32`
/// carries equality both ways.
pub proof fn lemma_char_code(a: char, b: char)
    ensures
        (a as u32 == b as u32) <==> (a == b),
{
}

/// The digit character of a digit's value is that digit character again.
pub proof fn lemma_digit_char_of_val(c: char)
    requires
        is_digit(c),
    ensures
        digit_char(digit_val(c)) == c,
{
}

/// A nonempty digit run without a leading zero has a positive value.
pub proof fn lemma_dec_val_pos(s: Seq<char>)
    requires
        all_digits(s),
        s.len() >= 1,
        s[0] != '0',
    ensures
        dec_val(s) >= 1,
    decreases s.len(),
{
    if s.len() == 1 {
        assert(s.drop_last().len() == 0);
        assert(s.last() == s[0]);
        lemma_char_code(s[0], '0');
        assert(digit_val(s.last()) >= 1);
    } else {
        lemma_dec_val_pos(s.drop_last());
        lemma_dec_val_nonneg(s);
        assert(dec_val(s.drop_last()) * 10 >= 10);
        assert(digit_val(s.last()) >= 0);
    }
}

/// Rendering the value of a digit run reproduces the run exactly, provided it
/// carries no leading zero.
pub proof fn lemma_repr_of_val(s: Seq<char>)
    requires
        all_digits(s),
        s.len() >= 1,
        s.len() > 1 ==> s[0] != '0',
    ensures
        dec_repr(dec_val(s)) == s,
    decreases s.len(),
{
    let t = s.drop_last();
    let c = s.last();
    let d = digit_val(c);
    if s.len() == 1 {
        assert(t.len() == 0);
        assert(c == s[0]);
        assert(dec_val(t) == 0);
        assert(dec_val(s) == dec_val(t) * 10 + digit_val(s.last()));
        assert(dec_val(s) == d);
        lemma_digit_char_of_val(c);
        assert(d < 10);
        assert(dec_repr(d) =~= s);
    } else {
        assert(all_digits(t)) by {
            assert(forall|i: int| 0 <= i < t.len() ==> t[i] == s[i]);
        }
        assert(t[0] == s[0]);
        lemma_dec_val_pos(t);
        assert(is_digit(c)) by {
            assert(c == s[s.len() - 1]);
        }
        lemma_digit_char_of_val(c);
        let v = dec_val(t);
        assert(d < 10 && d >= 0);
        assert(dec_val(s) == v * 10 + d);
        assert(v * 10 + d >= 10);
        assert((v * 10 + d) / 10 == v && (v * 10 + d) % 10 == d) by {
            vstd::arithmetic::div_mod::lemma_fundamental_div_mod_converse(
                v * 10 + d,
                10,
                v,
                d,
            );
        }
        lemma_repr_of_val(t);
        assert(dec_repr(dec_val(s)) =~= dec_repr(v) + seq![digit_char(d)]);
        assert(dec_repr(v) + seq![digit_char(d)] =~= s);
    }
}

/// A one-character string slice holding the digit character for `d`.
fn digit_str(d: u64) -> (s: &'static str)
    requires
        d < 10,
    ensures
        s@ =~= seq![digit_char(d as int)],
{
    proof {
        reveal_strlit("0");
        reveal_strlit("1");
        reveal_strlit("2");
        reveal_strlit("3");
        reveal_strlit("4");
        reveal_strlit("5");
        reveal_strlit("6");
        reveal_strlit("7");
        reveal_strlit("8");
        reveal_strlit("9");
    }
    if d == 0 {
        "0"
    } else if d == 1 {
        "1"
    } else if d == 2 {
        "2"
    } else if d == 3 {
        "3"
    } else if d == 4 {
        "4"
    } else if d == 5 {
        "5"
    } else if d == 6 {
        "6"
    } else if d == 7 {
        "7"
    } else if d == 8 {
        "8"
    } else {
        "9"
    }
}

/// Renders a nonnegative integer in decimal.
pub fn u64_to_string(n: u64) -> (s: String)
    ensures
        s@ == dec_repr(n as int),
    decreases n,
{
    if n < 10 {
        String::from_str(digit_str(n))
    } else {
        proof {
            vstd::arithmetic::div_mod::lemma_fundamental_div_mod(n as int, 10);
        }
        let front = u64_to_string(n / 10);
        let s = front.concat(digit_str(n % 10));
        proof {
            assert(s@ =~= dec_repr(n as int));
        }
        s
    }
}

/// Renders a signed integer in decimal, with a minus sign when negative.
pub fn i64_to_string(n: i64) -> (s: String)
    ensures
        s@ == int_repr(n as int),
{
    if n >= 0 {
        u64_to_string(n as u64)
    } else {
        let mag: u64 = (-(n + 1)) as u64 + 1;
        assert(mag as int == -(n as int));
        let rest = u64_to_string(mag);
        let s = String::from_str("-").concat(rest.as_str());
        proof {
            reveal_strlit("-");
            assert(s@ =~= int_repr(n as int));
        }
        s
    }
}

} // verus!
