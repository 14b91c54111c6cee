//! Bluetooth device addresses.

use vstd::prelude::*;

verus! {

/// A Bluetooth device address, most significant byte first.
#[derive(Clone, Copy, Debug, Eq, Hash)]
pub struct Address(pub [u8; 6]);

impl PartialEq for Address {
    fn eq(&self, other: &Self) -> (same: bool) {
        let mut i: usize = 0;
        while i < 6
            invariant
                i <= 6,
                forall|j: int| 0 <= j < i ==> self.0@[j] == other.0@[j],
            decreases 6 - i,
        {
            if self.0[i] != other.0[i] {
                return false;
            }
            i += 1;
        }
        assert(self.0@ =~= other.0@);
        assert(self.0 =~= other.0);
        true
    }
}

impl vstd::std_specs::cmp::PartialEqSpecImpl for Address {
    open spec fn obeys_eq_spec() -> bool {
        true
    }

    open spec fn eq_spec(&self, other: &Self) -> bool {
        *self == *other
    }
}

/// The upper case hexadecimal digit for a value below sixteen.
pub open spec fn hex_digit(value: int) -> char {
    if value < 10 {
        ('0' as int + value) as char
    } else {
        ('A' as int + value - 10) as char
    }
}

/// Six bytes in colon-hexadecimal notation: `AA:BB:CC:DD:EE:FF`.
pub open spec fn address_text(bytes: Seq<u8>) -> Seq<char> {
    Seq::new(
        17,
        |i: int|
            if i % 3 == 0 {
                hex_digit(bytes[i / 3] as int / 16)
            } else if i % 3 == 1 {
                hex_digit(bytes[i / 3] as int % 16)
            } else {
                ':'
            },
    )
}

/// `Display` of `bluer::Address`, through `to_string`: two upper case
/// hexadecimal digits for each byte, the bytes parted by colons.
#[verifier::external_body]
fn bluer_address_text(bytes: [u8; 6]) -> (text: String)
    ensures
        text@ == address_text(bytes@),
{
    bluer::Address::new(bytes).to_string()
}

impl Address {
    /// The address in colon-hexadecimal notation.
    pub open spec fn text(self) -> Seq<char> {
        address_text(self.0@)
    }

    /// The address in colon-hexadecimal notation.
    pub fn to_text(&self) -> (text: String)
        ensures
            text@ == self.text(),
    {
        bluer_address_text(self.0)
    }
}

/// Different addresses have different texts.
pub proof fn law_address_text_injective(a: Address, b: Address)
    requires
        a.text() == b.text(),
    ensures
        a == b,
{
    assert forall|k: int| 0 <= k < 6 implies a.0@[k] == b.0@[k] by {
        let x = a.0@[k] as int;
        let y = b.0@[k] as int;
        assert(a.text()[3 * k] == hex_digit(x / 16));
        assert(b.text()[3 * k] == hex_digit(y / 16));
        assert(a.text()[3 * k + 1] == hex_digit(x % 16));
        assert(b.text()[3 * k + 1] == hex_digit(y % 16));
        lemma_hex_digit_injective(x / 16, y / 16);
        lemma_hex_digit_injective(x % 16, y % 16);
    }
    assert(a.0@ =~= b.0@);
    assert(a.0 =~= b.0);
}

proof fn lemma_hex_digit_injective(x: int, y: int)
    requires
        0 <= x < 16,
        0 <= y < 16,
        hex_digit(x) == hex_digit(y),
    ensures
        x == y,
{
    assert(hex_digit(x) as int == hex_digit(y) as int);
}

/// The value of a hexadecimal digit in upper case.
pub open spec fn hex_value(c: char) -> int {
    if '0' <= c <= '9' {
        c as int - '0' as int
    } else {
        c as int - 'A' as int + 10
    }
}

/// The text of an address has seventeen characters. Each byte reads back from
/// the two digits at its place, the higher one first, and all other characters
/// are colons.
pub proof fn law_address_text_reads_back(a: Address, k: int)
    requires
        0 <= k < 6,
    ensures
        a.text().len() == 17,
        a.0@[k] == 16 * hex_value(a.text()[3 * k]) + hex_value(a.text()[3 * k + 1]),
        '0' <= a.text()[3 * k] <= '9' || 'A' <= a.text()[3 * k] <= 'F',
        '0' <= a.text()[3 * k + 1] <= '9' || 'A' <= a.text()[3 * k + 1] <= 'F',
        k < 5 ==> a.text()[3 * k + 2] == ':',
{
    let byte = a.0@[k] as int;
    assert(a.text()[3 * k] == hex_digit(byte / 16));
    assert(a.text()[3 * k + 1] == hex_digit(byte % 16));
    lemma_hex_value(byte / 16);
    lemma_hex_value(byte % 16);
}

proof fn lemma_hex_value(value: int)
    requires
        0 <= value < 16,
    ensures
        hex_value(hex_digit(value)) == value,
        '0' <= hex_digit(value) <= '9' || 'A' <= hex_digit(value) <= 'F',
{
    let c = hex_digit(value);
    if value < 10 {
        assert(c as int == '0' as int + value);
    } else {
        assert(c as int == 'A' as int + value - 10);
    }
}

/// Addresses are equal exactly where all their bytes are.
pub proof fn law_address_equality(a: Address, b: Address)
    ensures
        vstd::std_specs::cmp::PartialEqSpec::eq_spec(&a, &b) <==> forall|k: int|
            0 <= k < 6 ==> a.0@[k] == b.0@[k],
{
    if forall|k: int| 0 <= k < 6 ==> a.0@[k] == b.0@[k] {
        assert(a.0@ =~= b.0@);
        assert(a.0 =~= b.0);
    }
}

} // verus!
