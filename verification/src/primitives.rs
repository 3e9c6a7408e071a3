//! Fixed-width chain values: 256-bit unsigned integers and account addresses,
//! both held as big-endian bytes.

use vstd::prelude::*;

use crate::hash::keccak256_digest;
use crate::hex::{
    bytes_of_hex, has_hex_prefix, hex_text, hex_value, is_hex_digit, lemma_hex_digit_value,
};

verus! {

/// The natural number that a big-endian byte string denotes.
pub open spec fn be_value(bytes: Seq<u8>) -> nat
    decreases bytes.len(),
{
    if bytes.len() == 0 {
        0
    } else {
        be_value(bytes.drop_last()) * 256 + bytes.last() as nat
    }
}

/// `256^n`.
pub open spec fn pow256(n: nat) -> nat
    decreases n,
{
    if n == 0 {
        1
    } else {
        256 * pow256((n - 1) as nat)
    }
}

/// A byte string of `n` bytes denotes a number below `256^n`.
pub proof fn lemma_be_value_bound(bytes: Seq<u8>)
    ensures
        be_value(bytes) < pow256(bytes.len()),
    decreases bytes.len(),
{
    if bytes.len() > 0 {
        lemma_be_value_bound(bytes.drop_last());
    }
}

/// A byte string of zeros denotes zero.
pub proof fn lemma_zero_bytes_value(bytes: Seq<u8>)
    requires
        forall|i: int| 0 <= i < bytes.len() ==> bytes[i] == 0u8,
    ensures
        be_value(bytes) == 0,
    decreases bytes.len(),
{
    if bytes.len() > 0 {
        lemma_zero_bytes_value(bytes.drop_last());
    }
}

/// The value of a concatenation: the left part is shifted by the length of
/// the right part.
pub proof fn lemma_be_value_concat(a: Seq<u8>, b: Seq<u8>)
    ensures
        be_value(a + b) == be_value(a) * pow256(b.len()) + be_value(b),
    decreases b.len(),
{
    if b.len() == 0 {
        assert(a + b =~= a);
        assert(be_value(a) * pow256(b.len()) == be_value(a)) by (nonlinear_arith)
            requires
                pow256(b.len()) == 1,
        ;
    } else {
        let b0 = b.drop_last();
        assert((a + b).drop_last() =~= a + b0);
        assert((a + b).last() == b.last());
        lemma_be_value_concat(a, b0);
        let x = be_value(a) as int;
        let p = pow256(b0.len()) as int;
        let y = be_value(b0) as int;
        assert(pow256(b.len()) == 256 * p);
        assert(be_value(a + b0) == x * p + y);
        assert((x * p + y) * 256 == x * (256 * p) + y * 256) by (nonlinear_arith);
        assert(be_value(a + b) == be_value(a + b0) * 256 + b.last() as nat);
        assert(be_value(b) == y * 256 + b.last() as nat);
    }
}

/// `256^n` grows with `n`.
pub proof fn lemma_pow256_monotonic(m: nat, n: nat)
    requires
        m <= n,
    ensures
        pow256(m) <= pow256(n),
        pow256(m) >= 1,
    decreases n,
{
    if m < n {
        lemma_pow256_monotonic(m, (n - 1) as nat);
    } else if n > 0 {
        lemma_pow256_monotonic((m - 1) as nat, (n - 1) as nat);
    }
}

/// A non-zero byte at position `i` puts the value at or above the weight of
/// that position.
pub proof fn lemma_nonzero_byte_lower_bound(bytes: Seq<u8>, i: int)
    requires
        0 <= i < bytes.len(),
        bytes[i] != 0u8,
    ensures
        be_value(bytes) >= pow256((bytes.len() - 1 - i) as nat),
    decreases bytes.len(),
{
    if i < bytes.len() - 1 {
        lemma_nonzero_byte_lower_bound(bytes.drop_last(), i);
    }
}

/// Byte strings of one length that denote one number are the same string.
pub proof fn lemma_be_value_injective(a: Seq<u8>, b: Seq<u8>)
    requires
        a.len() == b.len(),
        be_value(a) == be_value(b),
    ensures
        a == b,
    decreases a.len(),
{
    if a.len() > 0 {
        lemma_be_value_injective(a.drop_last(), b.drop_last());
        assert(a =~= a.drop_last().push(a.last()));
        assert(b =~= b.drop_last().push(b.last()));
    } else {
        assert(a =~= b);
    }
}

/// A single byte denotes itself.
pub proof fn lemma_single_byte_value(b: u8)
    ensures
        be_value(seq![b]) == b as nat,
{
    assert(seq![b].drop_last() =~= Seq::<u8>::empty());
    assert(be_value(Seq::<u8>::empty()) == 0);
    assert(seq![b].last() == b);
}

/// `256^8 = 2^64`.
pub proof fn lemma_pow256_of_8()
    ensures
        pow256(8) == 0x1_0000_0000_0000_0000,
{
    reveal_with_fuel(pow256, 9);
}

/// Whether two 32-byte words hold the same bytes.
pub fn same_word(a: &[u8; 32], b: &[u8; 32]) -> (r: bool)
    ensures
        r == (a@ == b@),
{
    let mut i: usize = 0;
    while i < 32
        invariant
            i <= 32,
            forall|j: int| 0 <= j < i ==> a@[j] == b@[j],
        decreases 32 - i,
    {
        if a[i] != b[i] {
            return false;
        }
        i += 1;
    }
    assert(a@ =~= b@);
    true
}

/// A 256-bit unsigned integer, most significant byte first.
#[derive(Clone, Copy, Debug, PartialEq, Eq)]
pub struct U256 {
    pub bytes: [u8; 32],
}

impl View for U256 {
    type V = nat;

    open spec fn view(&self) -> nat {
        be_value(self.bytes@)
    }
}

/// Two 256-bit integers of one value hold the same bytes.
pub proof fn lemma_value_pins_bytes(a: U256, b: U256)
    requires
        a@ == b@,
    ensures
        a.bytes@ == b.bytes@,
{
    lemma_be_value_injective(a.bytes@, b.bytes@);
}

impl U256 {
    /// The integer zero.
    pub fn zero() -> (r: U256)
        ensures
            r@ == 0,
    {
        let r = U256 { bytes: [0u8; 32] };
        proof {
            lemma_zero_bytes_value(r.bytes@);
        }
        r
    }

    /// The integer that the 32 bytes denote, most significant first.
    pub fn from_be_bytes(bytes: [u8; 32]) -> (r: U256)
        ensures
            r.bytes == bytes,
    {
        U256 { bytes }
    }

    /// The 32 bytes of the integer, most significant first.
    pub fn to_be_bytes(&self) -> (r: [u8; 32])
        ensures
            r == self.bytes,
    {
        self.bytes
    }

    /// Widens a 64-bit integer.
    pub fn from_u64(v: u64) -> (r: U256)
        ensures
            r@ == v,
    {
        let mut bytes = [0u8; 32];
        let mut rest: u64 = v;
        let mut i: usize = 32;
        assert(bytes@.subrange(32, 32) =~= Seq::<u8>::empty());
        assert(be_value(bytes@.subrange(32, 32)) == 0);
        assert(pow256((32 - i) as nat) == 1);
        assert(rest * pow256((32 - i) as nat) == rest) by (nonlinear_arith)
            requires
                pow256((32 - i) as nat) == 1,
        ;
        while i > 24
            invariant
                24 <= i <= 32,
                forall|j: int| 0 <= j < i ==> bytes@[j] == 0u8,
                rest * pow256((32 - i) as nat) + be_value(bytes@.subrange(i as int, 32)) == v,
            decreases i,
        {
            let ghost before = bytes@;
            let low: u8 = (rest % 256) as u8;
            i -= 1;
            bytes[i] = low;
            proof {
                let tail = before.subrange(i + 1, 32);
                assert(bytes@.subrange(i as int, 32) =~= seq![low] + tail);
                lemma_be_value_concat(seq![low], tail);
                lemma_single_byte_value(low);
                let p = pow256((31 - i) as nat) as int;
                assert(pow256((32 - i) as nat) == 256 * p);
                assert(pow256((32 - (i + 1)) as nat) == p);
                let q = (rest / 256) as int;
                assert(rest as int == q * 256 + low as int);
                assert((q * 256 + low as int) * p == q * (256 * p) + low as int * p)
                    by (nonlinear_arith);
            }
            rest = rest / 256;
        }
        proof {
            lemma_pow256_of_8();
            lemma_be_value_bound(bytes@.subrange(24, 32));
            assert(rest == 0) by (nonlinear_arith)
                requires
                    rest * pow256(8) + be_value(bytes@.subrange(24, 32)) == v,
                    pow256(8) == 0x1_0000_0000_0000_0000,
                    v < 0x1_0000_0000_0000_0000,
                    rest >= 0,
            ;
            let head = bytes@.subrange(0, 24);
            let tail = bytes@.subrange(24, 32);
            assert(bytes@ =~= head + tail);
            lemma_zero_bytes_value(head);
            lemma_be_value_concat(head, tail);
        }
        U256 { bytes }
    }

    /// Narrows to a signed 64-bit integer, where the value fits in one.
    pub fn to_i64(&self) -> (r: Option<i64>)
        ensures
            match r {
                Some(v) => v as int == self@ as int,
                None => self@ > i64::MAX,
            },
    {
        let mut i: usize = 0;
        while i < 24
            invariant
                i <= 24,
                forall|j: int| 0 <= j < i ==> self.bytes@[j] == 0u8,
            decreases 24 - i,
        {
            if self.bytes[i] != 0 {
                proof {
                    lemma_nonzero_byte_lower_bound(self.bytes@, i as int);
                    lemma_pow256_monotonic(8, (31 - i) as nat);
                    lemma_pow256_of_8();
                }
                return None;
            }
            i += 1;
        }
        let mut acc: u64 = 0;
        let mut k: usize = 24;
        proof {
            lemma_zero_bytes_value(self.bytes@.subrange(0, 24));
        }
        while k < 32
            invariant
                24 <= k <= 32,
                acc == be_value(self.bytes@.subrange(0, k as int)),
                acc < pow256((k - 24) as nat),
            decreases 32 - k,
        {
            proof {
                lemma_pow256_monotonic((k - 24) as nat, 7);
                lemma_pow256_of_8();
                assert(pow256(8) == 256 * pow256(7));
                assert(self.bytes@.subrange(0, k + 1).drop_last() =~= self.bytes@.subrange(0, k as int));
            }
            acc = acc * 256 + self.bytes[k] as u64;
            k += 1;
        }
        assert(self.bytes@.subrange(0, 32) =~= self.bytes@);
        if acc > 0x7fff_ffff_ffff_ffff {
            None
        } else {
            Some(acc as i64)
        }
    }
}

/// A 20-byte account address.
#[derive(Clone, Copy, Debug, PartialEq, Eq)]
pub struct Address {
    pub bytes: [u8; 20],
}

impl View for Address {
    type V = Seq<u8>;

    open spec fn view(&self) -> Seq<u8> {
        self.bytes@
    }
}

/// The 32-byte word that carries an address: twelve zero bytes, then the
/// twenty bytes of the address.
pub open spec fn address_word(address: Seq<u8>) -> Seq<u8> {
    Seq::new(12, |i: int| 0u8) + address
}

impl Address {
    /// The address of twenty zero bytes.
    pub fn zero() -> (r: Address)
        ensures
            r@ == Seq::new(20, |i: int| 0u8),
    {
        let r = Address { bytes: [0u8; 20] };
        assert(r@ =~= Seq::new(20, |i: int| 0u8));
        r
    }

    /// The address as a 32-byte word, padded on the left with zeros.
    pub fn to_word(&self) -> (r: [u8; 32])
        ensures
            r@ == address_word(self@),
    {
        let mut word = [0u8; 32];
        let mut i: usize = 0;
        while i < 20
            invariant
                i <= 20,
                forall|j: int| 0 <= j < 12 ==> word@[j] == 0u8,
                forall|j: int| 0 <= j < i ==> word@[12 + j] == self.bytes@[j],
            decreases 20 - i,
        {
            word[12 + i] = self.bytes[i];
            i += 1;
        }
        assert(word@ =~= address_word(self@));
        word
    }

    /// Reads an address back from a 32-byte word; `None` where the twelve
    /// leading bytes are not all zero.
    pub fn from_word(word: &[u8; 32]) -> (r: Option<Address>)
        ensures
            match r {
                Some(a) => word@ == address_word(a@),
                None => exists|j: int| 0 <= j < 12 && word@[j] != 0u8,
            },
    {
        let mut i: usize = 0;
        while i < 12
            invariant
                i <= 12,
                forall|j: int| 0 <= j < i ==> word@[j] == 0u8,
            decreases 12 - i,
        {
            if word[i] != 0 {
                return None;
            }
            i += 1;
        }
        let mut bytes = [0u8; 20];
        let mut k: usize = 0;
        while k < 20
            invariant
                k <= 20,
                forall|j: int| 0 <= j < k ==> bytes@[j] == word@[12 + j],
            decreases 20 - k,
        {
            bytes[k] = word[12 + k];
            k += 1;
        }
        let a = Address { bytes };
        assert(word@ =~= address_word(a@));
        Some(a)
    }
}

/// The address that a hexadecimal text denotes: the twenty bytes of a text
/// of forty digits, with or without prefix. `None` for every other text.
pub open spec fn address_of_text(text: Seq<char>) -> Option<Seq<u8>> {
    match bytes_of_hex(text) {
        Some(bytes) => if bytes.len() == 20 {
            Some(bytes)
        } else {
            None
        },
        None => None,
    }
}

/// A hexadecimal digit as the checksum writes it: a letter in upper case
/// where the digest's nibble at its place is 8 or more, else as it is.
pub open spec fn checksum_char(digit: char, nibble: nat) -> char {
    if digit >= 'a' && nibble >= 8 {
        (digit as nat - 0x20) as u8 as char
    } else {
        digit
    }
}

/// The mixed-case checksummed text of an address: `0x`, then its digits in
/// hexadecimal, each letter's case taken from the Keccak-256 digest of the
/// lower-case digits.
pub open spec fn checksum_text(address: Seq<u8>) -> Seq<char> {
    let digits = hex_text(address);
    let digest = keccak256_digest(Seq::new(digits.len(), |i: int| digits[i] as u8));
    "0x"@ + Seq::new(
        digits.len(),
        |i: int|
            checksum_char(
                digits[i],
                if i % 2 == 0 {
                    (digest[i / 2] / 16) as nat
                } else {
                    (digest[i / 2] % 16) as nat
                },
            ),
    )
}

/// The checksummed text of an address is read back as the address.
pub proof fn checksum_text_round_trip(address: Seq<u8>)
    requires
        address.len() == 20,
    ensures
        address_of_text(checksum_text(address)) == Some(address),
{
    let digits = hex_text(address);
    let text = checksum_text(address);
    let body = text.skip(2);
    reveal_strlit("0x");
    assert(text[0] == '0' && text[1] == 'x');
    assert(has_hex_prefix(text));
    assert(body.len() == 40);
    assert forall|i: int| 0 <= i < body.len() implies is_hex_digit(#[trigger] body[i])
        && hex_value(body[i]) == hex_value(digits[i]) by {
        lemma_hex_digit_value((address[i / 2] / 16) as nat);
        lemma_hex_digit_value((address[i / 2] % 16) as nat);
        assert(body[i] == text[i + 2]);
    }
    assert forall|i: int| 0 <= i < address.len() implies (16 * hex_value(body[2 * i]) + hex_value(
        body[2 * i + 1],
    )) as u8 == address[i] by {
        lemma_hex_digit_value((address[i] / 16) as nat);
        lemma_hex_digit_value((address[i] % 16) as nat);
        assert((2 * i) / 2 == i && (2 * i) % 2 == 0);
        assert((2 * i + 1) / 2 == i && (2 * i + 1) % 2 == 1);
        assert(is_hex_digit(body[2 * i]) && is_hex_digit(body[2 * i + 1]));
    }
    assert(bytes_of_hex(text).unwrap() =~= address);
}

/// Calls `to_string` of `alloy::primitives::Address`. Trusted: the text is
/// `0x` and the forty lower-case digits of the address, in which a letter
/// stands in upper case where the nibble at its place, in the Keccak-256
/// digest of those forty digits, is 8 or more.
#[verifier::external_body]
fn address_text(address: &Address) -> (text: String)
    ensures
        text@ == checksum_text(address@),
{
    alloy::primitives::Address::from(address.bytes).to_string()
}

/// Calls `from_str` of `alloy::primitives::Address`. Trusted: the text is
/// decoded as hexadecimal, and only a text of exactly twenty bytes gives an
/// address.
#[verifier::external_body]
fn parse_address(text: &str) -> (r: Result<Address, alloy::hex::FromHexError>)
    ensures
        match r {
            Ok(address) => address_of_text(text@) == Some(address@),
            Err(_) => address_of_text(text@) is None,
        },
{
    text.parse::<alloy::primitives::Address>().map(|address| Address { bytes: address.0.0 })
}

impl Address {
    /// The checksummed text of the address.
    pub fn to_text(&self) -> (text: String)
        ensures
            text@ == checksum_text(self@),
    {
        address_text(self)
    }

    /// Reads an address from hexadecimal text.
    pub fn from_text(text: &str) -> (r: Option<Address>)
        ensures
            match r {
                Some(address) => address_of_text(text@) == Some(address@),
                None => address_of_text(text@) is None,
            },
    {
        match parse_address(text) {
            Ok(address) => Some(address),
            Err(_) => None,
        }
    }
}

} // verus!
