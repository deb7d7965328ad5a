//! Values as clients write and read them: 64- and 128-bit numbers as decimal
//! text, and byte strings as `0x` followed by lower-case digits in base
//! sixteen.

use crate::account_address::{hex_decode, hex_decoded, hex_encode, hex_encoded};
use crate::text::{decimal_digits, number_value, parse_number, push_decimal, string_push_str};
use vstd::prelude::*;
use vstd::string::StringSliceAdditionalSpecFns;

verus! {

/// A 64-bit number that travels as decimal text.
#[derive(Clone, Copy, Debug, PartialEq, Eq, Structural)]
pub struct U64(pub u64);

/// A 128-bit number that travels as decimal text.
#[derive(Clone, Copy, Debug, PartialEq, Eq, Structural)]
pub struct U128(pub u128);

/// Why a text was not read as a number or as a byte string.
#[derive(Clone, Copy, Debug, PartialEq, Eq, Structural)]
pub enum ParseError {
    /// The text is not one or more decimal digits, or the number is too
    /// large for the type.
    InvalidNumber,
    /// The text does not start with `0x`.
    MissingPrefix,
    /// What follows `0x` is not an even number of digits in base sixteen.
    InvalidHex,
}

impl U64 {
    /// The decimal text of the number.
    pub fn to_string(&self) -> (r: String)
        ensures
            r@ == decimal_digits(self.0 as nat),
    {
        let mut r = String::new();
        push_decimal(&mut r, self.0 as u128);
        r
    }

    /// Reads the number from decimal text, and fails where the text is not
    /// decimal digits, with or without one `+` before them, or the number
    /// does not fit in 64 bits.
    pub fn parse(s: &str) -> (r: Result<U64, ParseError>)
        ensures
            r is Ok <==> (number_value(s.spec_bytes()) is Some && number_value(
                s.spec_bytes(),
            )->Some_0 <= u64::MAX),
            r is Ok ==> r->Ok_0.0 == number_value(s.spec_bytes())->Some_0,
            r is Err ==> r->Err_0 == ParseError::InvalidNumber,
    {
        match parse_number(s.as_bytes(), 0xffff_ffff_ffff_ffff) {
            Some(v) => Ok(U64(v as u64)),
            None => Err(ParseError::InvalidNumber),
        }
    }

    /// The number within.
    pub fn inner(&self) -> (r: u64)
        ensures
            r == self.0,
    {
        self.0
    }
}

impl From<u64> for U64 {
    fn from(d: u64) -> (r: U64) {
        U64(d)
    }
}

impl vstd::std_specs::convert::FromSpecImpl<u64> for U64 {
    open spec fn obeys_from_spec() -> bool {
        true
    }

    open spec fn from_spec(d: u64) -> U64 {
        U64(d)
    }
}

impl From<U64> for u64 {
    fn from(d: U64) -> (r: u64) {
        d.0
    }
}

impl vstd::std_specs::convert::FromSpecImpl<U64> for u64 {
    open spec fn obeys_from_spec() -> bool {
        true
    }

    open spec fn from_spec(d: U64) -> u64 {
        d.0
    }
}

impl U128 {
    /// The decimal text of the number.
    pub fn to_string(&self) -> (r: String)
        ensures
            r@ == decimal_digits(self.0 as nat),
    {
        let mut r = String::new();
        push_decimal(&mut r, self.0);
        r
    }

    /// Reads the number from decimal text, and fails where the text is not
    /// decimal digits, with or without one `+` before them, or the number
    /// does not fit in 128 bits.
    pub fn parse(s: &str) -> (r: Result<U128, ParseError>)
        ensures
            r is Ok <==> (number_value(s.spec_bytes()) is Some && number_value(
                s.spec_bytes(),
            )->Some_0 <= u128::MAX),
            r is Ok ==> r->Ok_0.0 == number_value(s.spec_bytes())->Some_0,
            r is Err ==> r->Err_0 == ParseError::InvalidNumber,
    {
        match parse_number(s.as_bytes(), 0xffff_ffff_ffff_ffff_ffff_ffff_ffff_ffff) {
            Some(v) => Ok(U128(v)),
            None => Err(ParseError::InvalidNumber),
        }
    }

    /// The number within.
    pub fn inner(&self) -> (r: u128)
        ensures
            r == self.0,
    {
        self.0
    }
}

impl From<u128> for U128 {
    fn from(d: u128) -> (r: U128) {
        U128(d)
    }
}

impl vstd::std_specs::convert::FromSpecImpl<u128> for U128 {
    open spec fn obeys_from_spec() -> bool {
        true
    }

    open spec fn from_spec(d: u128) -> U128 {
        U128(d)
    }
}

impl From<U128> for u128 {
    fn from(d: U128) -> (r: u128) {
        d.0
    }
}

impl vstd::std_specs::convert::FromSpecImpl<U128> for u128 {
    open spec fn obeys_from_spec() -> bool {
        true
    }

    open spec fn from_spec(d: U128) -> u128 {
        d.0
    }
}

/// A byte string that travels as `0x` followed by its digits in base sixteen.
#[derive(Clone, Debug, PartialEq, Eq)]
pub struct HexEncodedBytes(pub Vec<u8>);

impl View for HexEncodedBytes {
    type V = Seq<u8>;

    open spec fn view(&self) -> Seq<u8> {
        self.0@
    }
}

impl HexEncodedBytes {
    /// The text of the byte string: `0x` and two lower-case digits to a byte.
    pub fn to_string(&self) -> (r: String)
        ensures
            r@ == "0x"@ + hex_encoded(self@),
    {
        let mut r = String::new();
        string_push_str(&mut r, "0x");
        let digits = hex_encode(self.0.as_slice());
        string_push_str(&mut r, digits.as_str());
        r
    }

    /// Reads a byte string from its text: `0x` and an even number of digits
    /// in base sixteen, in either case of the letters.
    pub fn parse(s: &str) -> (r: Result<HexEncodedBytes, ParseError>)
        ensures
            r is Ok <==> (s.spec_bytes().len() >= 2 && s.spec_bytes()[0] == 48 && s.spec_bytes()[1]
                == 120 && hex_decoded(s.spec_bytes().skip(2)) is Some),
            r is Ok ==> r->Ok_0@ == hex_decoded(s.spec_bytes().skip(2))->Some_0,
    {
        let bytes = s.as_bytes();
        if bytes.len() < 2 || bytes[0] != 48 || bytes[1] != 120 {
            return Err(ParseError::MissingPrefix);
        }
        let digits = vstd::slice::slice_subrange(bytes, 2, bytes.len());
        assert(digits@ =~= s.spec_bytes().skip(2));
        match hex_decode(digits) {
            Ok(data) => Ok(HexEncodedBytes(data)),
            Err(_) => Err(ParseError::InvalidHex),
        }
    }

    /// The bytes within.
    pub fn inner(&self) -> (r: &Vec<u8>)
        ensures
            r@ == self@,
    {
        &self.0
    }
}

impl From<Vec<u8>> for HexEncodedBytes {
    fn from(bytes: Vec<u8>) -> (r: HexEncodedBytes) {
        HexEncodedBytes(bytes)
    }
}

impl vstd::std_specs::convert::FromSpecImpl<Vec<u8>> for HexEncodedBytes {
    open spec fn obeys_from_spec() -> bool {
        true
    }

    open spec fn from_spec(bytes: Vec<u8>) -> HexEncodedBytes {
        HexEncodedBytes(bytes)
    }
}

/// Who may call a function of a published module.
#[derive(Clone, Copy, Debug, PartialEq, Eq, Structural)]
pub enum MoveFunctionVisibility {
    Private,
    Public,
    Script,
    Friend,
}

impl MoveFunctionVisibility {
    /// The name of the visibility as clients read it, in lower case.
    pub open spec fn spec_name(self) -> &'static str {
        match self {
            MoveFunctionVisibility::Private => "private",
            MoveFunctionVisibility::Public => "public",
            MoveFunctionVisibility::Script => "script",
            MoveFunctionVisibility::Friend => "friend",
        }
    }

    pub fn name(&self) -> (r: &'static str)
        ensures
            r == self.spec_name(),
    {
        match self {
            MoveFunctionVisibility::Private => "private",
            MoveFunctionVisibility::Public => "public",
            MoveFunctionVisibility::Script => "script",
            MoveFunctionVisibility::Friend => "friend",
        }
    }
}

} // verus!
