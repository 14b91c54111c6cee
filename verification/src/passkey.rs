//! Pin codes and passkeys: six digits, shown with leading zeros.

use rand::Rng;
use vstd::prelude::*;
use vstd::string::*;

verus! {

/// The digit for a value below ten.
pub open spec fn digit(value: int) -> char {
    ('0' as int + value) as char
}

/// The decimal digits of a number, without leading zeros.
pub open spec fn decimal(number: nat) -> Seq<char>
    decreases number,
{
    if number < 10 {
        seq![digit(number as int)]
    } else {
        decimal(number / 10).push(digit((number % 10) as int))
    }
}

/// The decimal digits of a passkey, with as many zeros before them as make six.
pub open spec fn passkey_digits(passkey: nat) -> Seq<char> {
    let digits = decimal(passkey);
    if digits.len() < 6 {
        Seq::new((6 - digits.len()) as nat, |i: int| '0') + digits
    } else {
        digits
    }
}

/// The number that decimal digits stand for.
pub open spec fn decimal_value(digits: Seq<char>) -> int
    decreases digits.len(),
{
    if digits.len() == 0 {
        0
    } else {
        10 * decimal_value(digits.drop_last()) + (digits.last() as int - '0' as int)
    }
}

/// `random_range` of `rand::Rng` on the generator of the thread, `rand::rng`:
/// some number from `low` up to, and without, `high`. Which one is left to
/// chance, and nothing is said of how the numbers are spread. It panics on an
/// empty range.
#[verifier::external_body]
fn random_in(low: u32, high: u32) -> (number: u32)
    requires
        low < high,
    ensures
        low <= number < high,
{
    rand::rng().random_range(low..high)
}

fn digit_text(value: u32) -> (text: &'static str)
    requires
        value < 10,
    ensures
        text@ == seq![digit(value as int)],
{
    proof {
        reveal_strlit("0");
        reveal_strlit("1");
        reveal_strlit("2");
        reveal_strlit("3");
        reveal_strlit("4");
        reveal_strlit("5");
        reveal_strlit("6");
        reveal_strlit("7");
        reveal_strlit("8");
        reveal_strlit("9");
    }
    let text = match value {
        0 => "0",
        1 => "1",
        2 => "2",
        3 => "3",
        4 => "4",
        5 => "5",
        6 => "6",
        7 => "7",
        8 => "8",
        _ => "9",
    };
    assert(text@ =~= seq![digit(value as int)]);
    text
}

fn decimal_text(number: u32) -> (text: String)
    ensures
        text@ == decimal(number as nat),
    decreases number,
{
    if number < 10 {
        digit_text(number).to_owned()
    } else {
        let text = decimal_text(number / 10).concat(digit_text(number % 10));
        assert(text@ =~= decimal(number as nat));
        text
    }
}

/// The passkey in six digits; in more, where it needs them.
pub fn passkey_text(passkey: u32) -> (text: String)
    ensures
        text@ == passkey_digits(passkey as nat),
{
    let digits = decimal_text(passkey);
    let length = digits.as_str().unicode_len();
    let mut text = String::new();
    let mut i: usize = length;
    while i < 6
        invariant
            length == digits@.len(),
            length <= i,
            i <= 6 || i == length,
            text@ == Seq::new((i - length) as nat, |j: int| '0'),
        decreases 6 - i,
    {
        proof {
            reveal_strlit("0");
        }
        let ghost before = text@;
        text.append("0");
        assert(text@ =~= before.push('0'));
        i += 1;
    }
    text.append(digits.as_str());
    assert(text@ =~= passkey_digits(passkey as nat));
    text
}

/// A pin code to pair with.
pub fn pin_code() -> (code: String)
    ensures
        exists|number: u32|
            number < 999_999 && code@ == #[trigger] passkey_digits(number as nat),
{
    let number = passkey();
    let code = passkey_text(number);
    assert(code@ == passkey_digits(number as nat));
    code
}

/// A passkey to pair with. Each call draws anew: that the number is in range is
/// all that holds of every draw.
pub fn passkey() -> (number: u32)
    ensures
        number < 999_999,
{
    random_in(0, 999_999)
}

/// Whether the text holds decimal digits only.
pub open spec fn all_digits(text: Seq<char>) -> bool {
    forall|i: int| 0 <= i < text.len() ==> '0' <= #[trigger] text[i] <= '9'
}

proof fn lemma_decimal(number: nat)
    ensures
        decimal(number).len() >= 1,
        all_digits(decimal(number)),
        decimal_value(decimal(number)) == number,
    decreases number,
{
    if number >= 10 {
        lemma_decimal(number / 10);
        let digits = decimal(number);
        assert(digits.drop_last() =~= decimal(number / 10));
        assert(digits.last() as int == '0' as int + number % 10);
    } else {
        let digits = decimal(number);
        assert(digits.drop_last() =~= Seq::empty());
        assert(digits.last() as int == '0' as int + number);
        assert(decimal_value(digits.drop_last()) == 0);
    }
}

proof fn lemma_leading_zeros(zeros: nat, digits: Seq<char>)
    ensures
        decimal_value(Seq::new(zeros, |i: int| '0') + digits) == decimal_value(digits),
    decreases digits.len() + zeros,
{
    let all = Seq::new(zeros, |i: int| '0') + digits;
    if digits.len() > 0 {
        lemma_leading_zeros(zeros, digits.drop_last());
        assert(all.drop_last() =~= Seq::new(zeros, |i: int| '0') + digits.drop_last());
    } else if zeros > 0 {
        lemma_leading_zeros((zeros - 1) as nat, digits);
        assert(all.drop_last() =~= Seq::new((zeros - 1) as nat, |i: int| '0') + digits);
    } else {
        assert(all =~= digits);
    }
}

proof fn lemma_decimal_len(number: nat, len: nat)
    requires
        number < vstd::arithmetic::power::pow(10, len),
        len >= 1,
    ensures
        decimal(number).len() <= len,
    decreases len,
{
    vstd::arithmetic::power::lemma_pow1(10);
    if len > 1 && number >= 10 {
        vstd::arithmetic::power::lemma_pow_adds(10, 1, (len - 1) as nat);
        lemma_decimal_len(number / 10, (len - 1) as nat);
    }
}

/// What is shown of a passkey reads back as the passkey.
pub proof fn law_passkey_reads_back(passkey: nat)
    ensures
        all_digits(passkey_digits(passkey)),
        passkey_digits(passkey).len() >= 6,
        decimal_value(passkey_digits(passkey)) == passkey,
{
    lemma_decimal(passkey);
    let digits = decimal(passkey);
    if digits.len() < 6 {
        lemma_leading_zeros((6 - digits.len()) as nat, digits);
    }
}

/// A passkey from 000000 to 999999 is shown in six digits.
pub proof fn law_passkey_has_six_digits(passkey: nat)
    requires
        passkey <= 999_999,
    ensures
        passkey_digits(passkey).len() == 6,
{
    assert(vstd::arithmetic::power::pow(10, 6) == 1_000_000) by {
        reveal(vstd::arithmetic::power::pow);
        reveal_with_fuel(vstd::arithmetic::power::pow, 7);
    }
    lemma_decimal_len(passkey, 6);
}

proof fn lemma_decimal_starts(number: nat)
    requires
        number > 0,
    ensures
        decimal(number).len() >= 1,
        decimal(number)[0] != '0',
    decreases number,
{
    if number >= 10 {
        lemma_decimal_starts(number / 10);
        assert(decimal(number)[0] == decimal(number / 10)[0]);
    } else {
        assert(decimal(number)[0] as int == '0' as int + number);
    }
}

/// A passkey that needs more than six digits is shown without zeros before them.
pub proof fn law_long_passkey_has_no_leading_zero(passkey: nat)
    requires
        passkey > 999_999,
    ensures
        passkey_digits(passkey).len() > 6,
        passkey_digits(passkey)[0] != '0',
{
    reveal_with_fuel(decimal, 8);
    assert(decimal(passkey / 10).len() >= 6);
    lemma_decimal_starts(passkey);
}

} // verus!
