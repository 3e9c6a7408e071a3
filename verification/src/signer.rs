//! Settlement permits: the typed payload, its domain-separated hash, and the
//! signature over it.

use vstd::prelude::*;
use vstd::string::{StrSliceExecFns, StringExecFns, StringSliceAdditionalSpecFns};

use crate::error::Error;
use crate::hash::{keccak256, keccak256_digest};
use crate::hex::{bytes_of_hex, hex_decode, hex_encode, hex_round_trip, hex_text};
use crate::amount::{amount_of_text, ether_text_round_trip};
use crate::models::{BetRecord, BetRow};
use crate::primitives::{
    address_of_text, address_word, be_value, checksum_text_round_trip, lemma_be_value_bound,
    lemma_be_value_concat,
    lemma_single_byte_value, lemma_value_pins_bytes, lemma_zero_bytes_value, pow256, Address,
    U256,
};
use crate::reconcile::{chain_row, BetInfo};

verus! {

/// Seconds for which a permit is meant to hold, counted from its making.
pub const PERMIT_WINDOW_SECS: i64 = 3600;

/// The chain that the permits are made for.
pub const CHAIN_ID: u64 = 2021;

/// The payload that the settlement contract accepts once it is signed.
#[derive(Clone, Copy, Debug, PartialEq, Eq)]
pub struct Permit {
    pub bet_id: U256,
    pub requester: Address,
    pub receiver: Address,
    pub points: U256,
    pub bet_amount: U256,
    pub deadline: U256,
}

/// What a permit holds, as mathematical values.
pub struct PermitValues {
    pub bet_id: nat,
    pub requester: Seq<u8>,
    pub receiver: Seq<u8>,
    pub points: nat,
    pub bet_amount: nat,
    pub deadline: nat,
}

impl View for Permit {
    type V = PermitValues;

    open spec fn view(&self) -> PermitValues {
        PermitValues {
            bet_id: self.bet_id@,
            requester: self.requester@,
            receiver: self.receiver@,
            points: self.points@,
            bet_amount: self.bet_amount@,
            deadline: self.deadline@,
        }
    }
}

/// Two permits that hold the same values are the same permit: the values
/// pin every byte.
pub proof fn permit_values_pin_permit(a: Permit, b: Permit)
    requires
        a@ == b@,
    ensures
        a == b,
{
    lemma_value_pins_bytes(a.bet_id, b.bet_id);
    lemma_value_pins_bytes(a.points, b.points);
    lemma_value_pins_bytes(a.bet_amount, b.bet_amount);
    lemma_value_pins_bytes(a.deadline, b.deadline);
    assert(a.bet_id.bytes =~= b.bet_id.bytes);
    assert(a.points.bytes =~= b.points.bytes);
    assert(a.bet_amount.bytes =~= b.bet_amount.bytes);
    assert(a.deadline.bytes =~= b.deadline.bytes);
    assert(a.requester.bytes =~= b.requester.bytes);
    assert(a.receiver.bytes =~= b.receiver.bytes);
}

/// A permit together with the signature over it: 32 bytes `r`, 32 bytes `s`,
/// and the recovery byte, 27 or 28.
#[derive(Clone, Copy, Debug)]
pub struct SignData {
    pub permit: Permit,
    pub signature: [u8; 65],
}

/// The private key that signs the permits. It is read once, when the process
/// starts, and never changed.
pub struct SignerKey {
    bytes: [u8; 32],
    address: Address,
}

/// The address of the account that a private key controls, for a key that
/// is one.
pub uninterp spec fn signer_address_of_key(key: Seq<u8>) -> Option<Seq<u8>>;

/// The recoverable signature of a 32-byte hash under a private key.
pub uninterp spec fn ecdsa_signature(key: Seq<u8>, hash: Seq<u8>) -> Option<Seq<u8>>;

/// The address of the account whose key made a signature over a hash.
pub uninterp spec fn recovered_signer(signature: Seq<u8>, hash: Seq<u8>) -> Option<Seq<u8>>;

/// The error of `alloy::primitives::Signature`, carried through unread.
#[verifier::external_type_specification]
#[verifier::external_body]
pub struct ExSignatureError(alloy::primitives::SignatureError);

/// Calls `address` of the `alloy::signers::local::PrivateKeySigner` made
/// from the key bytes. Trusted: whether the bytes are a key, and the address
/// of that key, depend on the bytes alone.
#[verifier::external_body]
fn signer_address(key: &[u8; 32]) -> (r: Option<Address>)
    ensures
        match r {
            Some(address) => signer_address_of_key(key@) == Some(address@),
            None => signer_address_of_key(key@) is None,
        },
{
    let bytes = alloy::primitives::B256::from(*key);
    match alloy::signers::local::PrivateKeySigner::from_bytes(&bytes) {
        Ok(signer) => Some(Address { bytes: signer.address().0.0 }),
        Err(_) => None,
    }
}

/// Calls `sign_hash_sync` of the `alloy::signers::local::PrivateKeySigner`
/// made from the key bytes. Trusted: the signature is deterministic, so the
/// outcome depends on the key and the hash alone.
#[verifier::external_body]
fn sign_prehash(key: &[u8; 32], hash: &[u8; 32]) -> (r: Option<[u8; 65]>)
    ensures
        match r {
            Some(signature) => ecdsa_signature(key@, hash@) == Some(signature@),
            None => ecdsa_signature(key@, hash@) is None,
        },
{
    let bytes = alloy::primitives::B256::from(*key);
    let prehash = alloy::primitives::B256::from(*hash);
    let signer = alloy::signers::local::PrivateKeySigner::from_bytes(&bytes).ok()?;
    match alloy::signers::SignerSync::sign_hash_sync(&signer, &prehash) {
        Ok(signature) => Some(signature.as_bytes()),
        Err(_) => None,
    }
}

/// Calls `recover_address_from_prehash` of the `alloy::primitives::Signature`
/// made from the 65 bytes. Trusted: the outcome depends on the signature and
/// the hash alone.
#[verifier::external_body]
fn recover_prehash(signature: &[u8; 65], hash: &[u8; 32]) -> (r: Result<Address, alloy::primitives::SignatureError>)
    ensures
        match r {
            Ok(address) => recovered_signer(signature@, hash@) == Some(address@),
            Err(_) => recovered_signer(signature@, hash@) is None,
        },
{
    let parsed = alloy::primitives::Signature::try_from(&signature[..])?;
    let prehash = alloy::primitives::B256::from(*hash);
    parsed.recover_address_from_prehash(&prehash).map(|address| Address { bytes: address.0.0 })
}

/// Appends bytes to a buffer.
fn append(buffer: &mut Vec<u8>, bytes: &[u8])
    ensures
        final(buffer)@ == old(buffer)@ + bytes@,
{
    let mut i: usize = 0;
    while i < bytes.len()
        invariant
            i <= bytes.len(),
            buffer@ == old(buffer)@ + bytes@.subrange(0, i as int),
        decreases bytes.len() - i,
    {
        buffer.push(bytes[i]);
        i += 1;
        assert(buffer@ =~= old(buffer)@ + bytes@.subrange(0, i as int));
    }
    assert(bytes@.subrange(0, bytes@.len() as int) =~= bytes@);
}

/// The contract that verifies the permits.
pub open spec fn verifying_contract_bytes() -> Seq<u8> {
    seq![
        0xecu8, 0x6b, 0xe1, 0xd0, 0xc5, 0x34, 0x89, 0xde, 0x12, 0x9b,
        0x2c, 0x13, 0xac, 0x3e, 0xdb, 0x39, 0x38, 0x65, 0xc2, 0x2f,
    ]
}

/// The chain's number as a 32-byte word.
pub open spec fn chain_id_word() -> Seq<u8> {
    Seq::new(30, |i: int| 0u8) + seq![0x07u8, 0xe5u8]
}

/// The hash that separates this domain from every other: its type, then the
/// digests of name and version, the chain's number and the verifying
/// contract.
pub open spec fn domain_separator() -> Seq<u8> {
    keccak256_digest(
        keccak256_digest(
            "EIP712Domain(string name,string version,uint256 chainId,address verifyingContract)".spec_bytes(),
        ) + keccak256_digest("FloppyGamble".spec_bytes()) + keccak256_digest("1".spec_bytes())
            + chain_id_word() + address_word(verifying_contract_bytes()),
    )
}

/// The hash of a permit as typed data: the digest of its type, then one
/// word for each field.
pub open spec fn permit_struct_hash(permit: Permit) -> Seq<u8> {
    keccak256_digest(
        keccak256_digest(
            "Permit(uint256 betId,address requester,address receiver,uint256 points,uint256 betAmount,uint256 deadline)".spec_bytes(),
        ) + permit.bet_id.bytes@ + address_word(permit.requester@) + address_word(
            permit.receiver@,
        ) + permit.points.bytes@ + permit.bet_amount.bytes@ + permit.deadline.bytes@,
    )
}

/// The hash that is signed: the two marker bytes, the domain separator and
/// the hash of the permit.
pub open spec fn permit_signing_hash(permit: Permit) -> Seq<u8> {
    keccak256_digest(seq![0x19u8, 0x01u8] + domain_separator() + permit_struct_hash(permit))
}

/// The chain's word denotes the chain's number.
pub proof fn lemma_chain_id_word()
    ensures
        chain_id_word().len() == 32,
        be_value(chain_id_word()) == CHAIN_ID,
{
    let zeros = Seq::new(30, |i: int| 0u8);
    lemma_zero_bytes_value(zeros);
    lemma_be_value_concat(zeros, seq![0x07u8, 0xe5u8]);
    lemma_be_value_concat(seq![0x07u8], seq![0xe5u8]);
    assert(seq![0x07u8] + seq![0xe5u8] =~= seq![0x07u8, 0xe5u8]);
    lemma_single_byte_value(0x07u8);
    lemma_single_byte_value(0xe5u8);
    reveal_with_fuel(pow256, 3);
}

/// The contract that verifies the permits.
pub fn verifying_contract() -> (r: Address)
    ensures
        r@ == verifying_contract_bytes(),
{
    let bytes: [u8; 20] = [
        0xec, 0x6b, 0xe1, 0xd0, 0xc5, 0x34, 0x89, 0xde, 0x12, 0x9b,
        0x2c, 0x13, 0xac, 0x3e, 0xdb, 0x39, 0x38, 0x65, 0xc2, 0x2f,
    ];
    assert(bytes@ =~= verifying_contract_bytes());
    Address { bytes }
}

/// Computes the domain separator.
pub fn eip712_domain_separator() -> (digest: [u8; 32])
    ensures
        digest@ == domain_separator(),
{
    let type_hash = keccak256(
        "EIP712Domain(string name,string version,uint256 chainId,address verifyingContract)".as_bytes(),
    );
    let name_hash = keccak256("FloppyGamble".as_bytes());
    let version_hash = keccak256("1".as_bytes());
    let mut chain_id = [0u8; 32];
    chain_id[30] = 0x07;
    chain_id[31] = 0xe5;
    assert(chain_id@ =~= chain_id_word());
    let contract = verifying_contract().to_word();
    let mut message: Vec<u8> = Vec::new();
    append(&mut message, type_hash.as_slice());
    append(&mut message, name_hash.as_slice());
    append(&mut message, version_hash.as_slice());
    append(&mut message, chain_id.as_slice());
    append(&mut message, contract.as_slice());
    assert(message@ =~= type_hash@ + name_hash@ + version_hash@ + chain_id@ + contract@);
    keccak256(message.as_slice())
}

/// Computes the hash of a permit as typed data.
pub fn eip712_hash_struct(permit: &Permit) -> (digest: [u8; 32])
    ensures
        digest@ == permit_struct_hash(*permit),
{
    let type_hash = keccak256(
        "Permit(uint256 betId,address requester,address receiver,uint256 points,uint256 betAmount,uint256 deadline)".as_bytes(),
    );
    let requester = permit.requester.to_word();
    let receiver = permit.receiver.to_word();
    let mut message: Vec<u8> = Vec::new();
    append(&mut message, type_hash.as_slice());
    append(&mut message, permit.bet_id.bytes.as_slice());
    append(&mut message, requester.as_slice());
    append(&mut message, receiver.as_slice());
    append(&mut message, permit.points.bytes.as_slice());
    append(&mut message, permit.bet_amount.bytes.as_slice());
    append(&mut message, permit.deadline.bytes.as_slice());
    assert(message@ =~= type_hash@ + permit.bet_id.bytes@ + requester@ + receiver@
        + permit.points.bytes@ + permit.bet_amount.bytes@ + permit.deadline.bytes@);
    keccak256(message.as_slice())
}

/// Computes the hash of a permit that is signed.
pub fn eip712_signing_hash(permit: &Permit) -> (digest: [u8; 32])
    ensures
        digest@ == permit_signing_hash(*permit),
{
    let domain = eip712_domain_separator();
    let body = eip712_hash_struct(permit);
    let mut message: Vec<u8> = Vec::new();
    message.push(0x19);
    message.push(0x01);
    append(&mut message, domain.as_slice());
    append(&mut message, body.as_slice());
    assert(message@ =~= seq![0x19u8, 0x01u8] + domain@ + body@);
    keccak256(message.as_slice())
}

/// The key that a hexadecimal text holds: 32 bytes that are a private key.
pub open spec fn key_of_text(text: Seq<char>) -> Option<Seq<u8>> {
    match bytes_of_hex(text) {
        Some(bytes) => if bytes.len() == 32 && signer_address_of_key(bytes) is Some {
            Some(bytes)
        } else {
            None
        },
        None => None,
    }
}

impl SignerKey {
    #[verifier::type_invariant]
    spec fn well_formed(self) -> bool {
        signer_address_of_key(self.bytes@) == Some(self.address@)
    }

    /// The 32 bytes of the key.
    pub closed spec fn key_bytes(&self) -> Seq<u8> {
        self.bytes@
    }

    /// The address of the account that the key controls.
    pub closed spec fn signer(&self) -> Seq<u8> {
        self.address@
    }

    /// Reads the key from hexadecimal text. `Error::Config` for a text that
    /// holds no private key.
    pub fn parse(text: &str) -> (r: Result<SignerKey, Error>)
        ensures
            match r {
                Ok(key) => key_of_text(text@) == Some(key.key_bytes()) && signer_address_of_key(
                    key.key_bytes(),
                ) == Some(key.signer()),
                Err(e) => e == Error::Config && key_of_text(text@) is None,
            },
    {
        let decoded = match hex_decode(text) {
            Ok(decoded) => decoded,
            Err(_) => {
                return Err(Error::Config);
            },
        };
        if decoded.len() != 32 {
            return Err(Error::Config);
        }
        let mut bytes = [0u8; 32];
        let mut i: usize = 0;
        while i < 32
            invariant
                i <= 32,
                decoded@.len() == 32,
                forall|j: int| 0 <= j < i ==> bytes@[j] == decoded@[j],
            decreases 32 - i,
        {
            bytes[i] = decoded[i];
            i += 1;
        }
        assert(bytes@ =~= decoded@);
        match signer_address(&bytes) {
            Some(address) => Ok(SignerKey { bytes, address }),
            None => Err(Error::Config),
        }
    }

    /// The address of the account that the key controls.
    pub fn address(&self) -> (r: Address)
        ensures
            r@ == self.signer(),
            signer_address_of_key(self.key_bytes()) == Some(r@),
    {
        proof {
            use_type_invariant(self);
        }
        self.address
    }
}

/// Signs a permit. `Error::Config` where the key yields no signature.
pub fn sign_permit(key: &SignerKey, permit: Permit) -> (r: Result<SignData, Error>)
    ensures
        match r {
            Ok(data) => data.permit == permit && ecdsa_signature(
                key.key_bytes(),
                permit_signing_hash(permit),
            ) == Some(data.signature@),
            Err(e) => e == Error::Config && ecdsa_signature(
                key.key_bytes(),
                permit_signing_hash(permit),
            ) is None,
        },
{
    let hash = eip712_signing_hash(&permit);
    match sign_prehash(&key.bytes, &hash) {
        Some(signature) => Ok(SignData { permit, signature }),
        None => Err(Error::Config),
    }
}

/// The deadline of a permit made at `now`, in seconds since the epoch:
/// `None` where it would lie before the epoch or beyond the clock's range.
pub open spec fn deadline_at(now: i64) -> Option<nat> {
    if 0 <= now + PERMIT_WINDOW_SECS <= i64::MAX {
        Some((now + PERMIT_WINDOW_SECS) as nat)
    } else {
        None
    }
}

/// Builds the permit for the given values, with the deadline one window
/// after `now`, and signs it. `Error::Format` where the deadline cannot be
/// had; `Error::Config` where the key yields no signature.
pub fn sign_gamble_permit(
    key: &SignerKey,
    now: i64,
    bet_id: U256,
    requester: Address,
    receiver: Address,
    points: U256,
    bet_amount: U256,
) -> (r: Result<SignData, Error>)
    ensures
        match r {
            Ok(data) => {
                &&& data.permit.bet_id == bet_id
                &&& data.permit.requester == requester
                &&& data.permit.receiver == receiver
                &&& data.permit.points == points
                &&& data.permit.bet_amount == bet_amount
                &&& deadline_at(now) == Some(data.permit.deadline@)
                &&& ecdsa_signature(key.key_bytes(), permit_signing_hash(data.permit)) == Some(
                    data.signature@,
                )
            },
            Err(e) => if deadline_at(now) is None {
                e == Error::Format
            } else {
                &&& e == Error::Config
                &&& exists|permit: Permit|
                    permit.bet_id == bet_id && permit.requester == requester && permit.receiver
                        == receiver && permit.points == points && permit.bet_amount == bet_amount
                        && deadline_at(now) == Some(permit.deadline@) && #[trigger] ecdsa_signature(
                        key.key_bytes(),
                        permit_signing_hash(permit),
                    ) is None
            },
        },
{
    if now < -PERMIT_WINDOW_SECS || now > i64::MAX - PERMIT_WINDOW_SECS {
        return Err(Error::Format);
    }
    let deadline = U256::from_u64((now + PERMIT_WINDOW_SECS) as u64);
    let permit = Permit { bet_id, requester, receiver, points, bet_amount, deadline };
    sign_permit(key, permit)
}

/// The signature in the form in which it is handed out: `0x`, then the 65
/// bytes in hexadecimal.
pub fn signature_text(signature: &[u8; 65]) -> (text: String)
    ensures
        text@ == "0x"@ + hex_text(signature@),
{
    let digits = hex_encode(signature.as_slice());
    let mut text = String::from_str("0x");
    text.append(digits.as_str());
    text
}

/// A signature that was handed out is read back as the same 65 bytes, so
/// the signer it names for a permit is the one recovered from those bytes.
pub proof fn signature_text_is_read_back(signature: Seq<u8>, permit: Permit)
    requires
        signature.len() == 65,
    ensures
        bytes_of_hex("0x"@ + hex_text(signature)) == Some(signature),
        gamble_signer("0x"@ + hex_text(signature), permit) == recovered_signer(
            signature,
            permit_signing_hash(permit),
        ),
{
    hex_round_trip(signature);
}

/// The signer that a signature in hexadecimal text names for a permit:
/// `None` where the text is not 65 bytes in hexadecimal, or where no signer
/// can be recovered from them.
pub open spec fn gamble_signer(signature: Seq<char>, permit: Permit) -> Option<Seq<u8>> {
    match bytes_of_hex(signature) {
        Some(bytes) => if bytes.len() == 65 {
            recovered_signer(bytes, permit_signing_hash(permit))
        } else {
            None
        },
        None => None,
    }
}

/// Recovers the address of the account that signed a permit.
/// `Error::Format` for a signature that names no signer.
pub fn recover_gamble_signature(signature: &str, data: Permit) -> (r: Result<Address, Error>)
    ensures
        match r {
            Ok(address) => gamble_signer(signature@, data) == Some(address@),
            Err(e) => e == Error::Format && gamble_signer(signature@, data) is None,
        },
{
    let decoded = match hex_decode(signature) {
        Ok(decoded) => decoded,
        Err(_) => {
            return Err(Error::Format);
        },
    };
    if decoded.len() != 65 {
        return Err(Error::Format);
    }
    let mut bytes = [0u8; 65];
    let mut i: usize = 0;
    while i < 65
        invariant
            i <= 65,
            decoded@.len() == 65,
            forall|j: int| 0 <= j < i ==> bytes@[j] == decoded@[j],
        decreases 65 - i,
    {
        bytes[i] = decoded[i];
        i += 1;
    }
    assert(bytes@ =~= decoded@);
    let hash = eip712_signing_hash(&data);
    match recover_prehash(&bytes, &hash) {
        Ok(address) => Ok(address),
        Err(_) => Err(Error::Format),
    }
}

/// The session whose player point goes into the permit of a bet: none for
/// a bet that is linked to no session.
pub open spec fn linked_match_of(bet: BetRow) -> Option<i32> {
    if bet.match_id != 0 && i32::MIN <= bet.match_id <= i32::MAX {
        Some(bet.match_id as i32)
    } else {
        None
    }
}

/// The session whose player point goes into the permit of a bet.
pub fn linked_match(bet: &BetRecord) -> (r: Option<i32>)
    ensures
        r == linked_match_of(bet@),
{
    if bet.match_id != 0 && bet.match_id >= -2147483648 && bet.match_id <= 2147483647 {
        Some(bet.match_id as i32)
    } else {
        None
    }
}

/// The points that go into a permit: the player point of the linked
/// session, 0 where there is no session or its point is unset.
pub open spec fn points_of(player_point: Option<i32>) -> int {
    match player_point {
        Some(point) => point as int,
        None => 0,
    }
}

/// What the permit of a stored bet holds, made at `now`: `None` where the
/// id or the points are negative, an address or the amount is malformed,
/// or the deadline cannot be had.
pub open spec fn permit_values(bet: BetRow, player_point: Option<i32>, now: i64) -> Option<
    PermitValues,
> {
    if bet.id >= 0 && points_of(player_point) >= 0 && address_of_text(bet.requester_address)
        is Some && address_of_text(bet.receiver_address) is Some && amount_of_text(bet.bet_amount)
        is Some && deadline_at(now) is Some {
        Some(
            PermitValues {
                bet_id: bet.id as nat,
                requester: address_of_text(bet.requester_address).unwrap(),
                receiver: address_of_text(bet.receiver_address).unwrap(),
                points: points_of(player_point) as nat,
                bet_amount: amount_of_text(bet.bet_amount).unwrap(),
                deadline: deadline_at(now).unwrap(),
            },
        )
    } else {
        None
    }
}

/// A row that mirrors a report of the chain always yields a permit, given
/// points that are not negative and a deadline in range, and the permit
/// carries what the chain reported: the id, both accounts and the amount.
pub proof fn permit_mirrors_report(
    bet_id: U256,
    info: BetInfo,
    player_point: Option<i32>,
    now: i64,
)
    requires
        chain_row(bet_id, info) is Some,
        points_of(player_point) >= 0,
        deadline_at(now) is Some,
    ensures
        ({
            let row = chain_row(bet_id, info).unwrap();
            let values = permit_values(row, player_point, now);
            &&& values is Some
            &&& values.unwrap().bet_id == bet_id@
            &&& values.unwrap().requester == info.requester@
            &&& values.unwrap().receiver == info.receiver@
            &&& values.unwrap().bet_amount == info.amount@
        }),
{
    lemma_be_value_bound(info.amount.bytes@);
    ether_text_round_trip(info.amount@);
    checksum_text_round_trip(info.requester@);
    checksum_text_round_trip(info.receiver@);
}

/// Builds the permit of a stored bet from the row and the player point of
/// its linked session. `Error::Format` where a value is malformed.
pub fn permit_for(bet: &BetRecord, player_point: Option<i32>, now: i64) -> (r: Result<Permit, Error>)
    ensures
        match permit_values(bet@, player_point, now) {
            Some(values) => r is Ok && r.unwrap()@ == values,
            None => r is Err && r.unwrap_err() == Error::Format,
        },
{
    let points: i32 = match player_point {
        Some(point) => point,
        None => 0,
    };
    if bet.id < 0 || points < 0 {
        return Err(Error::Format);
    }
    let requester = match Address::from_text(bet.requester_address.as_str()) {
        Some(address) => address,
        None => {
            return Err(Error::Format);
        },
    };
    let receiver = match Address::from_text(bet.receiver_address.as_str()) {
        Some(address) => address,
        None => {
            return Err(Error::Format);
        },
    };
    let bet_amount = match U256::from_ether_text(bet.bet_amount.as_str()) {
        Some(amount) => amount,
        None => {
            return Err(Error::Format);
        },
    };
    if now < -PERMIT_WINDOW_SECS || now > i64::MAX - PERMIT_WINDOW_SECS {
        return Err(Error::Format);
    }
    Ok(
        Permit {
            bet_id: U256::from_u64(bet.id as u64),
            requester,
            receiver,
            points: U256::from_u64(points as u64),
            bet_amount,
            deadline: U256::from_u64((now + PERMIT_WINDOW_SECS) as u64),
        },
    )
}

/// Builds and signs the permit of a bet. `bet` is the row that the store
/// holds under the requested id, if any; `player_point` is the point of the
/// session that `linked_match` names, if there is one and its point is set.
/// `Error::NotFound` where there is no row, `Error::Format` where a stored
/// value is malformed, `Error::Config` where the key yields no signature.
pub fn build_permit(
    key: &SignerKey,
    now: i64,
    bet: Option<&BetRecord>,
    player_point: Option<i32>,
) -> (r: Result<SignData, Error>)
    ensures
        bet is None ==> r is Err && r.unwrap_err() == Error::NotFound,
        bet is Some && permit_values(bet.unwrap()@, player_point, now) is None ==> r is Err
            && r.unwrap_err() == Error::Format,
        bet is Some && permit_values(bet.unwrap()@, player_point, now) is Some ==> match r {
            Ok(data) => {
                &&& Some(data.permit@) == permit_values(bet.unwrap()@, player_point, now)
                &&& ecdsa_signature(key.key_bytes(), permit_signing_hash(data.permit)) == Some(
                    data.signature@,
                )
            },
            Err(e) => {
                &&& e == Error::Config
                &&& exists|permit: Permit|
                    Some(permit@) == permit_values(bet.unwrap()@, player_point, now)
                        && #[trigger] ecdsa_signature(
                        key.key_bytes(),
                        permit_signing_hash(permit),
                    ) is None
            },
        },
{
    let record = match bet {
        Some(record) => record,
        None => {
            return Err(Error::NotFound);
        },
    };
    let permit = match permit_for(record, player_point, now) {
        Ok(permit) => permit,
        Err(e) => {
            return Err(e);
        },
    };
    sign_permit(key, permit)
}

} // verus!
