//! Account addresses and transaction hashes, and their hexadecimal texts.
use vstd::prelude::*;

use crate::text::{ascii_lower, to_ascii_lowercase};

verus! {

/// The hexadecimal digit of value `d`, in small letters.
pub open spec fn hex_char(d: int) -> char {
    if d < 10 {
        ('0' as u32 + d) as char
    } else {
        ('a' as u32 + (d - 10)) as char
    }
}

/// `c` is a hexadecimal digit, in small or capital letters.
pub open spec fn is_hex(c: char) -> bool {
    '0' <= c <= '9' || 'a' <= c <= 'f' || 'A' <= c <= 'F'
}

/// The value of a hexadecimal digit.
pub open spec fn hex_value(c: char) -> int {
    if '0' <= c <= '9' {
        c as u32 - '0' as u32
    } else if 'a' <= c <= 'f' {
        c as u32 - 'a' as u32 + 10
    } else {
        c as u32 - 'A' as u32 + 10
    }
}

/// Bytes as hexadecimal digits in small letters, two for each byte.
pub open spec fn hex(bytes: Seq<u8>) -> Seq<char> {
    Seq::new(
        2 * bytes.len(),
        |i: int|
            hex_char(
                if i % 2 == 0 {
                    bytes[i / 2] as int / 16
                } else {
                    bytes[i / 2] as int % 16
                },
            ),
    )
}

/// Bytes in hexadecimal behind the prefix `0x`.
pub open spec fn prefixed_hex(bytes: Seq<u8>) -> Seq<char> {
    seq!['0', 'x'] + hex(bytes)
}

/// A text without the prefix `0x` or `0X`, where it has one.
pub open spec fn without_hex_prefix(s: Seq<char>) -> Seq<char> {
    if s.len() >= 2 && s[0] == '0' && (s[1] == 'x' || s[1] == 'X') {
        s.skip(2)
    } else {
        s
    }
}

/// The bytes of an address that a text stands for: forty hexadecimal digits,
/// with or without the prefix. `None` for any other text.
pub open spec fn parsed_address(s: Seq<char>) -> Option<Seq<u8>> {
    let digits = without_hex_prefix(s);
    if digits.len() == 40 && (forall|i: int| 0 <= i < 40 ==> is_hex(#[trigger] digits[i])) {
        Some(
            Seq::new(
                20,
                |i: int| (16 * hex_value(digits[2 * i]) + hex_value(digits[2 * i + 1])) as u8,
            ),
        )
    } else {
        None
    }
}

/// The address of twenty zero bytes.
pub open spec fn zero_address() -> Seq<u8> {
    Seq::new(20, |i: int| 0u8)
}

/// An account address of twenty bytes.
#[derive(Clone, Copy, Debug, PartialEq, Eq, Hash)]
pub struct Address {
    pub bytes: [u8; 20],
}

impl View for Address {
    type V = Seq<u8>;

    open spec fn view(&self) -> Seq<u8> {
        self.bytes@
    }
}

/// The hash of a transaction, of thirty-two bytes.
#[derive(Clone, Copy, Debug, PartialEq, Eq, Hash)]
pub struct TxHash {
    pub bytes: [u8; 32],
}

impl View for TxHash {
    type V = Seq<u8>;

    open spec fn view(&self) -> Seq<u8> {
        self.bytes@
    }
}

/// What the `FromStr` of `alloy::primitives::Address` says of a text that it refuses.
pub uninterp spec fn address_error_text(s: Seq<char>) -> Seq<char>;

/// The `FromStr` of `alloy::primitives::Address`: forty hexadecimal digits, in
/// small or capital letters, behind an optional `0x` or `0X`, give the twenty
/// bytes. Any other text is an error, whose text is named.
#[verifier::external_body]
pub(crate) fn parse_hex_address(text: &str) -> (parsed: Result<Address, String>)
    ensures
        match parsed {
            Ok(address) => parsed_address(text@) == Some(address@),
            Err(error) => parsed_address(text@) is None && error@ == address_error_text(text@),
        },
{
    match text.parse::<alloy::primitives::Address>() {
        Ok(address) => Ok(Address { bytes: address.into_array() }),
        Err(error) => Err(error.to_string()),
    }
}

/// The text of an address with the capital letters of its checksum, as the
/// `Display` of `alloy::primitives::Address` writes it.
pub uninterp spec fn checksummed(address: Seq<u8>) -> Seq<char>;

/// The text of an address reads back as the address.
pub open spec fn reads_back(address: Seq<u8>) -> bool {
    parsed_address(checksummed(address)) == Some(address)
}

/// The `Display` of `alloy::primitives::Address`: the text is named by the bytes. It
/// is the hexadecimal text of the bytes but for the capital letters.
#[verifier::external_body]
fn display_address(address: &Address) -> (text: String)
    ensures
        text@ == checksummed(address@),
        to_ascii_lowercase(text@) == prefixed_hex(address@),
{
    alloy::primitives::Address::from(address.bytes).to_string()
}

/// Whether two byte arrays hold the same bytes.
pub fn same_bytes<const N: usize>(a: &[u8; N], b: &[u8; N]) -> (same: bool)
    ensures
        same == (a@ == b@),
{
    let mut i: usize = 0;
    while i < N
        invariant
            i <= N,
            forall|k: int| 0 <= k < i ==> a@[k] == b@[k],
        decreases N - i,
    {
        if a[i] != b[i] {
            return false;
        }
        i = i + 1;
    }
    proof {
        assert(a@ =~= b@);
    }
    true
}

/// The hexadecimal digit of value `d`.
fn hex_digit(d: u8) -> (c: char)
    requires
        d < 16,
    ensures
        c == hex_char(d as int),
{
    if d < 10 {
        (48u8 + d) as char
    } else {
        (87u8 + d) as char
    }
}

/// Bytes in hexadecimal behind the prefix `0x`.
fn prefixed_hex_text<const N: usize>(bytes: &[u8; N]) -> (text: String)
    ensures
        text@ == prefixed_hex(bytes@),
{
    let mut text = String::new();
    text.push('0');
    text.push('x');
    let mut i: usize = 0;
    proof {
        assert(text@ =~= prefixed_hex(bytes@.take(0)));
    }
    while i < N
        invariant
            i <= N,
            text@ == prefixed_hex(bytes@.take(i as int)),
        decreases N - i,
    {
        let byte = bytes[i];
        let ghost before = text@;
        text.push(hex_digit(byte / 16));
        text.push(hex_digit(byte % 16));
        proof {
            assert(text@ =~= prefixed_hex(bytes@.take(i + 1)));
        }
        i = i + 1;
    }
    proof {
        assert(bytes@.take(i as int) =~= bytes@);
    }
    text
}

impl Address {
    /// The address of twenty zero bytes.
    pub fn zero() -> (address: Address)
        ensures
            address@ == zero_address(),
    {
        let address = Address { bytes: [0u8; 20] };
        proof {
            assert(address@ =~= zero_address());
        }
        address
    }

    /// Whether two addresses are the same.
    pub fn same_as(&self, other: &Address) -> (same: bool)
        ensures
            same == (self@ == other@),
    {
        same_bytes(&self.bytes, &other.bytes)
    }

    /// The address with the capital letters of its checksum; it reads back as the
    /// address.
    pub fn to_checksummed(&self) -> (text: String)
        ensures
            text@ == checksummed(self@),
            to_ascii_lowercase(text@) == prefixed_hex(self@),
            parsed_address(text@) == Some(self@),
    {
        let text = display_address(self);
        proof {
            lemma_capitals_read_back(text@, self@);
        }
        text
    }

    /// The address in hexadecimal, in small letters.
    pub fn to_hex(&self) -> (text: String)
        ensures
            text@ == prefixed_hex(self@),
    {
        prefixed_hex_text(&self.bytes)
    }
}

impl TxHash {
    /// The hash in hexadecimal, in small letters.
    pub fn to_hex(&self) -> (text: String)
        ensures
            text@ == prefixed_hex(self@),
    {
        prefixed_hex_text(&self.bytes)
    }
}

/// A small hexadecimal digit and the same digit as a capital have the same value.
proof fn lemma_same_digit(c: char)
    requires
        is_hex(ascii_lower(c)),
    ensures
        is_hex(c),
        hex_value(c) == hex_value(ascii_lower(c)),
{
}

/// Capital letters make no difference to the address that a text stands for.
proof fn lemma_capitals_read_back(text: Seq<char>, address: Seq<u8>)
    requires
        address.len() == 20,
        to_ascii_lowercase(text) == prefixed_hex(address),
    ensures
        parsed_address(text) == Some(address),
{
    let small = prefixed_hex(address);
    law_address_reads_back(address);
    assert(text.len() == small.len());
    assert forall|i: int| 0 <= i < text.len() implies #[trigger] small[i] == ascii_lower(
        text[i],
    ) by {
        assert(to_ascii_lowercase(text)[i] == ascii_lower(text[i]));
    }
    assert(small[0] == '0' && small[1] == 'x');
    assert(text[0] == '0' && (text[1] == 'x' || text[1] == 'X'));
    let digits = text.skip(2);
    let plain = small.skip(2);
    assert(parsed_address(small) is Some);
    assert forall|i: int| 0 <= i < 40 implies is_hex(#[trigger] digits[i]) && hex_value(digits[i])
        == hex_value(plain[i]) by {
        assert(is_hex(plain[i]));
        assert(plain[i] == small[i + 2] && digits[i] == text[i + 2]);
        lemma_same_digit(text[i + 2]);
    }
    assert(parsed_address(text)->0 =~= parsed_address(small)->0) by {
        assert forall|i: int| 0 <= i < 20 implies parsed_address(text)->0[i] == parsed_address(
            small,
        )->0[i] by {
            assert(hex_value(digits[2 * i]) == hex_value(plain[2 * i]));
            assert(hex_value(digits[2 * i + 1]) == hex_value(plain[2 * i + 1]));
        }
    }
}

/// An address printed in hexadecimal reads back as the address.
pub proof fn law_address_reads_back(address: Seq<u8>)
    requires
        address.len() == 20,
    ensures
        parsed_address(prefixed_hex(address)) == Some(address),
{
    let text = prefixed_hex(address);
    let digits = text.skip(2);
    assert(digits =~= hex(address));
    assert forall|i: int| 0 <= i < 20 implies is_hex(#[trigger] digits[2 * i]) && is_hex(
        digits[2 * i + 1],
    ) && 16 * hex_value(digits[2 * i]) + hex_value(digits[2 * i + 1]) == address[i] by {
        let byte = address[i] as int;
        assert((2 * i) / 2 == i && (2 * i + 1) / 2 == i && (2 * i) % 2 == 0 && (2 * i + 1) % 2
            == 1);
        assert(digits[2 * i] == hex_char(byte / 16));
        assert(digits[2 * i + 1] == hex_char(byte % 16));
    }
    assert forall|i: int| 0 <= i < 40 implies is_hex(#[trigger] digits[i]) by {
        let half = i / 2;
        assert(is_hex(digits[2 * half]) && is_hex(digits[2 * half + 1]));
    }
    assert(parsed_address(text)->0 =~= address);
}

} // verus!
