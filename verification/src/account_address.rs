//! Account addresses: sixteen bytes, held as the number they spell.

use crate::bytes::{be_u128, be_u128_value, u128_from_be, u128_to_be};
use crate::text::{hex_char, hex_digit, hex_digits, is_hex, push_hex, string_push_str};
use vstd::prelude::*;
use vstd::string::StringSliceAdditionalSpecFns;

verus! {

/// The outside error of `hex::decode`.
#[verifier::external_type_specification]
#[verifier::external_body]
pub struct ExFromHexError(hex::FromHexError);

/// The bytes that a text in base sixteen spells, two digits to a byte, the
/// high digit first; `None` where the length is odd or a byte is no digit.
pub open spec fn hex_decoded(s: Seq<u8>) -> Option<Seq<u8>> {
    if s.len() % 2 == 0 && is_hex(s) {
        Some(
            Seq::new(
                s.len() / 2,
                |i: int| (hex_digit(s[2 * i])->Some_0 * 16 + hex_digit(s[2 * i + 1])->Some_0) as u8,
            ),
        )
    } else {
        None
    }
}

/// Calls `hex::decode`. Its source reads two digits to a byte, the high digit
/// first, in either case of the letters, and fails on an odd length or on a
/// byte that is no digit.
#[verifier::external_body]
pub(crate) fn hex_decode(s: &[u8]) -> (r: Result<Vec<u8>, hex::FromHexError>)
    ensures
        r is Ok <==> hex_decoded(s@) is Some,
        r is Ok ==> r->Ok_0@ == hex_decoded(s@)->Some_0,
{
    hex::decode(s)
}

/// The text of a byte string in base sixteen: two lower-case digits to a
/// byte, the high digit first.
pub open spec fn hex_encoded(data: Seq<u8>) -> Seq<char> {
    Seq::new(
        2 * data.len(),
        |i: int|
            if i % 2 == 0 {
                hex_char((data[i / 2] / 16) as nat)
            } else {
                hex_char((data[i / 2] % 16) as nat)
            },
    )
}

/// Calls `hex::encode`, which the crate documents to spell each byte as two
/// lower-case digits in base sixteen.
#[verifier::external_body]
pub(crate) fn hex_encode(data: &[u8]) -> (r: String)
    ensures
        r@ == hex_encoded(data@),
{
    hex::encode(data)
}

/// The address that a text of exactly 32 digits in base sixteen spells.
pub open spec fn parse_hex(s: Seq<u8>) -> Option<u128> {
    match hex_decoded(s) {
        Some(b) => if b.len() == 16 {
            Some(be_u128_value(b))
        } else {
            None
        },
        None => None,
    }
}

/// The address that a literal spells: `0x`, then one to 32 digits in base
/// sixteen, read as if zeros stood before them.
pub open spec fn parse_hex_literal(s: Seq<u8>) -> Option<u128> {
    if 3 <= s.len() <= 34 && s[0] == 48 && s[1] == 120 {
        parse_hex(Seq::new((34 - s.len()) as nat, |i: int| 48u8) + s.skip(2))
    } else {
        None
    }
}

/// What a text is read as where an address is expected: a literal, or else
/// 32 digits without a prefix.
pub open spec fn parse_address(s: Seq<u8>) -> Option<u128> {
    match parse_hex_literal(s) {
        Some(v) => Some(v),
        None => parse_hex(s),
    }
}

/// The text of an address as a literal: `0x` and the shortest spelling of its
/// number in base sixteen, so `0x0` for the address zero.
pub open spec fn hex_literal(v: u128) -> Seq<char> {
    "0x"@ + hex_digits(v as nat)
}

/// A 16-byte account address. The bytes are held as the number that they
/// spell, most significant byte first, so that addresses are ordered as their
/// bytes are.
#[derive(Clone, Copy, Debug, PartialEq, Eq, PartialOrd, Ord, Hash, Structural)]
pub struct AccountAddress {
    pub value: u128,
}

impl AccountAddress {
    /// The number of bytes in an address.
    pub const LENGTH: usize = 16;

    pub fn new(value: u128) -> (r: Self)
        ensures
            r.value == value,
    {
        AccountAddress { value }
    }

    /// The address whose bytes are `bytes`.
    pub fn from_bytes(bytes: &[u8; 16]) -> (r: Self)
        ensures
            r.value == be_u128_value(bytes@),
    {
        assert(bytes@.subrange(0, 16) =~= bytes@);
        AccountAddress { value: u128_from_be(bytes) }
    }

    /// The sixteen bytes of the address.
    pub fn to_bytes(&self) -> (r: [u8; 16])
        ensures
            r@ == be_u128(self.value),
    {
        u128_to_be(self.value)
    }

    /// Reads an address from exactly 32 digits in base sixteen.
    pub fn from_hex(s: &[u8]) -> (r: Option<Self>)
        ensures
            r is Some <==> parse_hex(s@) is Some,
            r is Some ==> r->Some_0.value == parse_hex(s@)->Some_0,
    {
        match hex_decode(s) {
            Ok(bytes) => {
                if bytes.len() == 16 {
                    assert(bytes@.subrange(0, 16) =~= bytes@);
                    Some(AccountAddress { value: u128_from_be(bytes.as_slice()) })
                } else {
                    None
                }
            },
            Err(_) => None,
        }
    }

    /// Reads an address from a literal: `0x` and one to 32 digits.
    pub fn from_hex_literal(s: &[u8]) -> (r: Option<Self>)
        ensures
            r is Some <==> parse_hex_literal(s@) is Some,
            r is Some ==> r->Some_0.value == parse_hex_literal(s@)->Some_0,
    {
        if s.len() < 3 || s.len() > 34 || s[0] != 48 || s[1] != 120 {
            return None;
        }
        let mut padded: Vec<u8> = Vec::new();
        let mut i: usize = s.len();
        while i < 34
            invariant
                s.len() <= i <= 34,
                padded@ == Seq::new((i - s.len()) as nat, |k: int| 48u8),
            decreases 34 - i,
        {
            padded.push(48u8);
            i += 1;
            assert(padded@ =~= Seq::new((i - s.len()) as nat, |k: int| 48u8));
        }
        let mut j: usize = 2;
        while j < s.len()
            invariant
                2 <= j <= s.len(),
                padded@ == Seq::new((34 - s.len()) as nat, |k: int| 48u8) + s@.subrange(2, j as int),
            decreases s.len() - j,
        {
            padded.push(s[j]);
            j += 1;
            assert(padded@ =~= Seq::new((34 - s.len()) as nat, |k: int| 48u8) + s@.subrange(
                2,
                j as int,
            ));
        }
        assert(s@.subrange(2, s.len() as int) =~= s@.skip(2));
        Self::from_hex(padded.as_slice())
    }

    /// The address as 32 digits in base sixteen, lower case.
    pub fn to_hex(&self) -> (r: String)
        ensures
            r@ == hex_encoded(be_u128(self.value)),
    {
        let bytes = self.to_bytes();
        hex_encode(&bytes)
    }

    /// The address as 32 digits in base sixteen, lower case.
    pub fn to_string(&self) -> (r: String)
        ensures
            r@ == hex_encoded(be_u128(self.value)),
    {
        self.to_hex()
    }

    /// The address as a literal.
    pub fn to_hex_literal(&self) -> (r: String)
        ensures
            r@ == hex_literal(self.value),
    {
        let mut r = String::new();
        string_push_str(&mut r, "0x");
        push_hex(&mut r, self.value);
        r
    }
}

/// An address as clients write and read it.
#[derive(Clone, Copy, Debug, PartialEq, Eq, Structural)]
pub struct Address(pub AccountAddress);

/// The text that could not be read as an address.
#[derive(Clone, Debug, PartialEq, Eq)]
pub struct AddressParseError {
    pub input: String,
}

impl AddressParseError {
    /// The diagnostic: `invalid account address: ` and the text as given.
    pub open spec fn spec_message(&self) -> Seq<char> {
        "invalid account address: "@ + self.input@
    }

    pub fn message(&self) -> (r: String)
        ensures
            r@ == self.spec_message(),
    {
        let mut r = String::new();
        string_push_str(&mut r, "invalid account address: ");
        string_push_str(&mut r, self.input.as_str());
        r
    }

    /// The diagnostic, as `message` gives it.
    pub fn to_string(&self) -> (r: String)
        ensures
            r@ == self.spec_message(),
    {
        self.message()
    }
}

impl Address {
    /// Reads an address from text: a literal (`0x` and up to 32 digits in base
    /// sixteen), or else exactly 32 digits. Any other text is refused, and
    /// the error holds it.
    pub fn parse(s: &str) -> (r: Result<Address, AddressParseError>)
        ensures
            r is Ok <==> parse_address(s.spec_bytes()) is Some,
            r is Ok ==> r->Ok_0.0.value == parse_address(s.spec_bytes())->Some_0,
            r is Err ==> r->Err_0.input@ == s@,
    {
        let bytes = s.as_bytes();
        match AccountAddress::from_hex_literal(bytes) {
            Some(a) => Ok(Address(a)),
            None => match AccountAddress::from_hex(bytes) {
                Some(a) => Ok(Address(a)),
                None => Err(AddressParseError { input: s.to_owned() }),
            },
        }
    }

    /// The address as a literal: `0x` and the shortest spelling in base
    /// sixteen.
    pub fn to_string(&self) -> (r: String)
        ensures
            r@ == hex_literal(self.0.value),
    {
        self.0.to_hex_literal()
    }

    /// The account address within.
    pub fn inner(&self) -> (r: AccountAddress)
        ensures
            r == self.0,
    {
        self.0
    }
}

impl std::str::FromStr for Address {
    type Err = AddressParseError;

    fn from_str(s: &str) -> (r: Result<Address, AddressParseError>)
        ensures
            r is Ok <==> parse_address(s.spec_bytes()) is Some,
            r is Ok ==> r->Ok_0.0.value == parse_address(s.spec_bytes())->Some_0,
            r is Err ==> r->Err_0.input@ == s@,
    {
        Address::parse(s)
    }
}

impl From<AccountAddress> for Address {
    fn from(address: AccountAddress) -> (r: Address) {
        Address(address)
    }
}

impl vstd::std_specs::convert::FromSpecImpl<AccountAddress> for Address {
    open spec fn obeys_from_spec() -> bool {
        true
    }

    open spec fn from_spec(address: AccountAddress) -> Address {
        Address(address)
    }
}

impl From<Address> for AccountAddress {
    fn from(address: Address) -> (r: AccountAddress) {
        address.0
    }
}

impl vstd::std_specs::convert::FromSpecImpl<Address> for AccountAddress {
    open spec fn obeys_from_spec() -> bool {
        true
    }

    open spec fn from_spec(address: Address) -> AccountAddress {
        address.0
    }
}

} // verus!
