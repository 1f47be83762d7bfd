//! Numbers in decimal digits.
use vstd::prelude::*;
use vstd::string::StringExecFns;

verus! {

/// The character of a digit.
pub open spec fn digit_char(d: nat) -> char {
    if d == 0 {
        '0'
    } else if d == 1 {
        '1'
    } else if d == 2 {
        '2'
    } else if d == 3 {
        '3'
    } else if d == 4 {
        '4'
    } else if d == 5 {
        '5'
    } else if d == 6 {
        '6'
    } else if d == 7 {
        '7'
    } else if d == 8 {
        '8'
    } else {
        '9'
    }
}

/// `n` in decimal digits, without leading zeros.
pub open spec fn decimal_chars(n: nat) -> Seq<char>
    decreases n,
{
    if n < 10 {
        seq![digit_char(n)]
    } else {
        decimal_chars(n / 10).push(digit_char(n % 10))
    }
}

/// All characters are digits.
pub open spec fn all_digits(s: Seq<char>) -> bool {
    forall|i: int| 0 <= i < s.len() ==> '0' <= #[trigger] s[i] <= '9'
}

/// Decimal digits are digits, and there is at least one.
pub proof fn lemma_decimal_digits(n: nat)
    ensures
        all_digits(decimal_chars(n)),
        decimal_chars(n).len() >= 1,
    decreases n,
{
    if n >= 10 {
        lemma_decimal_digits(n / 10);
    }
}

/// Different numbers have different digits.
pub proof fn lemma_decimal_injective(a: nat, b: nat)
    requires
        decimal_chars(a) == decimal_chars(b),
    ensures
        a == b,
    decreases a,
{
    lemma_decimal_digits(a / 10);
    lemma_decimal_digits(b / 10);
    assert(decimal_chars(a).last() == digit_char(a % 10));
    assert(decimal_chars(b).last() == digit_char(b % 10));
    assert(a % 10 == b % 10);
    assert(a >= 10 <==> decimal_chars(a).len() >= 2);
    assert(b >= 10 <==> decimal_chars(b).len() >= 2);
    if a >= 10 && b >= 10 {
        assert(decimal_chars(a).drop_last() =~= decimal_chars(a / 10));
        assert(decimal_chars(b).drop_last() =~= decimal_chars(b / 10));
        lemma_decimal_injective(a / 10, b / 10);
    }
}

fn digit_str(d: u64) -> (r: &'static str)
    requires
        d < 10,
    ensures
        r@ == seq![digit_char(d as nat)],
{
    proof {
        reveal_strlit("0");
        reveal_strlit("1");
        reveal_strlit("2");
        reveal_strlit("3");
        reveal_strlit("4");
        reveal_strlit("5");
        reveal_strlit("6");
        reveal_strlit("7");
        reveal_strlit("8");
        reveal_strlit("9");
    }
    let r = if d == 0 {
        "0"
    } else if d == 1 {
        "1"
    } else if d == 2 {
        "2"
    } else if d == 3 {
        "3"
    } else if d == 4 {
        "4"
    } else if d == 5 {
        "5"
    } else if d == 6 {
        "6"
    } else if d == 7 {
        "7"
    } else if d == 8 {
        "8"
    } else {
        "9"
    };
    assert(r@ =~= seq![digit_char(d as nat)]);
    r
}

/// Appends `n` in decimal digits.
pub fn append_decimal(text: &mut String, n: u64)
    ensures
        final(text)@ == old(text)@ + decimal_chars(n as nat),
    decreases n,
{
    let ghost before = text@;
    if n >= 10 {
        append_decimal(text, n / 10);
    }
    text.append(digit_str(n % 10));
    assert(text@ =~= before + decimal_chars(n as nat));
}

/// The number that digits spell.
pub open spec fn spelled(digits: Seq<char>) -> nat
    decreases digits.len(),
{
    if digits.len() == 0 {
        0
    } else {
        spelled(digits.drop_last()) * 10 + (digits.last() as nat - '0' as nat) as nat
    }
}

/// What is appended are digits that spell the number, without a zero in front unless it is zero.
pub proof fn law_decimal_spells_the_number(text: &mut String, n: u64, digits: Seq<char>)
    requires
        call_ensures(append_decimal, (text, n), ()),
        final(text)@ == old(text)@ + digits,
    ensures
        all_digits(digits),
        digits.len() >= 1,
        spelled(digits) == n,
        digits[0] == '0' ==> n == 0,
        n == 0 ==> digits.len() == 1,
{
    let all = decimal_chars(n as nat);
    let k = old(text)@.len() as int;
    assert(digits =~= final(text)@.subrange(k, final(text)@.len() as int));
    assert(all =~= final(text)@.subrange(k, final(text)@.len() as int));
    lemma_decimal_digits(n as nat);
    lemma_spelled(n as nat);
}

proof fn lemma_spelled(n: nat)
    ensures
        spelled(decimal_chars(n)) == n,
        decimal_chars(n).len() >= 1,
        decimal_chars(n)[0] == '0' ==> n == 0,
    decreases n,
{
    let all = decimal_chars(n);
    if n < 10 {
        assert(all.drop_last() =~= Seq::empty());
        assert(spelled(all.drop_last()) == 0);
        assert(all.last() == digit_char(n));
    } else {
        lemma_spelled(n / 10);
        assert(all.drop_last() =~= decimal_chars(n / 10));
        assert(all.last() == digit_char(n % 10));
        assert(all[0] == decimal_chars(n / 10)[0]);
    }
}

} // verus!
