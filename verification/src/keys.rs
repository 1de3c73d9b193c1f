//! The keys that cards are published under.
//!
//! A published record belongs to the key that signed it, so every card has a
//! key pair of its own, and the invitation to the app has one too.
use vstd::prelude::*;

use crate::strmap::StrMap;
use crate::text;

verus! {

// ---------------------------------------------------------------------------
// Hexadecimal text

/// The value of a hexadecimal digit, in capitals or not.
pub open spec fn digit_value(c: char) -> Option<nat> {
    if '0' <= c <= '9' {
        Some((c as u32 - '0' as u32) as nat)
    } else if 'a' <= c <= 'f' {
        Some((c as u32 - 'a' as u32 + 10) as nat)
    } else if 'A' <= c <= 'F' {
        Some((c as u32 - 'A' as u32 + 10) as nat)
    } else {
        None
    }
}

/// Whether `s` is made of pairs of hexadecimal digits.
pub open spec fn is_hex(s: Seq<char>) -> bool {
    &&& s.len() % 2 == 0
    &&& forall|i: int| 0 <= i < s.len() ==> digit_value(#[trigger] s[i]) is Some
}

/// The bytes that the digits of `s` write, two for each.
pub open spec fn hex_bytes(s: Seq<char>) -> Seq<u8> {
    Seq::new(
        s.len() / 2,
        |i: int| (digit_value(s[2 * i])->0 * 16 + digit_value(s[2 * i + 1])->0) as u8,
    )
}

pub open spec fn hex_digit(n: nat) -> char {
    if n < 10 {
        ((n + '0' as u32) as u32) as char
    } else {
        ((n - 10 + 'a' as u32) as u32) as char
    }
}

/// `bytes` in hexadecimal digits, two for each, in small letters.
pub open spec fn hex_text(bytes: Seq<u8>) -> Seq<char> {
    Seq::new(
        2 * bytes.len(),
        |i: int|
            if i % 2 == 0 {
                hex_digit(bytes[i / 2] as nat / 16)
            } else {
                hex_digit(bytes[i / 2] as nat % 16)
            },
    )
}

// ---------------------------------------------------------------------------
// Secret keys

/// The number that `bytes` write, the most significant first.
pub open spec fn number(bytes: Seq<u8>) -> nat
    decreases bytes.len(),
{
    if bytes.len() == 0 {
        0
    } else {
        number(bytes.drop_last()) * 256 + bytes.last() as nat
    }
}

/// The order of the curve secp256k1.
pub open spec fn curve_order() -> int {
    0xffff_ffff_ffff_ffff_ffff_ffff_ffff_fffe_baae_dce6_af48_a03b_bfd2_5e8c_d036_4141int
}

/// Whether `bytes` are a secret key: 32 bytes, not zero, below the order of
/// the curve.
pub open spec fn valid_secret_key(bytes: Seq<u8>) -> bool {
    bytes.len() == 32 && 0 < number(bytes) < curve_order()
}

/// What is said of bytes that are no secret key.
pub open spec fn bad_key() -> Seq<char> {
    "malformed or out-of-range secret key"@
}

// ---------------------------------------------------------------------------
// What the outside crates provide

/// Where the first character of `s` stands that is no hexadecimal digit.
pub open spec fn first_bad(s: Seq<char>) -> nat
    decreases s.len(),
{
    if s.len() == 0 || digit_value(s[0]) is None {
        0
    } else {
        1 + first_bad(s.drop_first())
    }
}

/// A character of ASCII that is shown between quotes as it is.
pub open spec fn shown_plainly(c: char) -> bool {
    ' ' <= c <= '~' && c != '\'' && c != '\\'
}

/// What `hex::decode` says of text of even length whose first character that
/// is no hexadecimal digit is not shown plainly.
pub uninterp spec fn hex_decode_error(s: Seq<char>) -> Seq<char>;

/// The public key of a secret key, as `sessionless` derives it and writes it
/// in hexadecimal digits.
pub uninterp spec fn public_key_text(key: Seq<u8>) -> Seq<char>;

/// The signature of a message under a secret key, as `sessionless` makes it
/// and writes it in hexadecimal digits.
pub uninterp spec fn signature_text(key: Seq<u8>, message: Seq<char>) -> Seq<char>;

/// `hex::decode`. It takes pairs of hexadecimal digits, in capitals or not,
/// and gives their bytes; of anything else it gives an error, of which only
/// the text is kept. Text of an odd number of bytes is told so; else the first
/// character that is no digit is named, with its place. How a character is
/// shown that is not plain ASCII is left unsaid.
#[verifier::external_body]
fn decode_hex(s: &str) -> (r: Result<Vec<u8>, String>)
    ensures
        r is Ok <==> is_hex(s@),
        r matches Ok(bytes) ==> bytes@ == hex_bytes(s@),
        r matches Err(e) ==> e@ == if vstd::utf8::encode_utf8(s@).len() % 2 == 1 {
            "Odd number of digits"@
        } else if shown_plainly(s@[first_bad(s@) as int]) {
            "Invalid character '"@ + seq![s@[first_bad(s@) as int]] + "' at position "@
                + text::decimal(first_bad(s@))
        } else {
            hex_decode_error(s@)
        },
{
    hex::decode(s).map_err(|e| e.to_string())
}

/// `SecretKey::from_slice`. It takes the 32 bytes of a number that is neither
/// zero nor beyond the order of the curve; of anything else it gives the error
/// for a bad secret key, of which only the text is kept.
#[verifier::external_body]
fn check_key(bytes: &Vec<u8>) -> (r: Result<Vec<u8>, String>)
    ensures
        r is Ok <==> valid_secret_key(bytes@),
        r matches Ok(key) ==> key@ == bytes@,
        r matches Err(e) ==> e@ == bad_key(),
{
    sessionless::secp256k1::SecretKey::from_slice(bytes.as_slice())
        .map(|key| key.secret_bytes().to_vec())
        .map_err(|e| e.to_string())
}

/// `Sessionless::new`, which draws a key pair at random. The secret key is a
/// valid one; nothing else is claimed of it.
#[verifier::external_body]
fn random_key() -> (r: Vec<u8>)
    ensures
        valid_secret_key(r@),
{
    sessionless::Sessionless::new().private_key().secret_bytes().to_vec()
}

/// `IntoHex::to_hex` on a secret key: its bytes in hexadecimal digits, in
/// small letters.
#[verifier::external_body]
fn key_to_hex(key: &Vec<u8>) -> (r: String)
    requires
        valid_secret_key(key@),
    ensures
        r@ == hex_text(key@),
{
    let key = sessionless::secp256k1::SecretKey::from_slice(key.as_slice()).unwrap();
    sessionless::hex::IntoHex::to_hex(&key)
}

/// `Sessionless::public_key`, written with `IntoHex::to_hex`. It depends on
/// nothing but the secret key.
#[verifier::external_body]
fn public_key_hex(key: &Vec<u8>) -> (r: String)
    requires
        valid_secret_key(key@),
    ensures
        r@ == public_key_text(key@),
{
    let key = sessionless::secp256k1::SecretKey::from_slice(key.as_slice()).unwrap();
    sessionless::hex::IntoHex::to_hex(sessionless::Sessionless::from_private_key(key).public_key())
}

/// `Sessionless::sign`, written with `IntoHex::to_hex`. The nonce is derived
/// from key and message, so the signature depends on nothing else.
#[verifier::external_body]
fn sign_hex(key: &Vec<u8>, message: &str) -> (r: String)
    requires
        valid_secret_key(key@),
    ensures
        r@ == signature_text(key@, message@),
{
    let key = sessionless::secp256k1::SecretKey::from_slice(key.as_slice()).unwrap();
    let session = sessionless::Sessionless::from_private_key(key);
    sessionless::hex::IntoHex::to_hex(&session.sign(message))
}

// ---------------------------------------------------------------------------
// Identities

/// Who publishes: the holder of a secret key.
pub struct Identity {
    key: Vec<u8>,
}

impl View for Identity {
    type V = Seq<u8>;

    closed spec fn view(&self) -> Seq<u8> {
        self.key@
    }
}

impl Identity {
    #[verifier::type_invariant]
    spec fn key_is_valid(self) -> bool {
        valid_secret_key(self.key@)
    }

    /// The bytes of the secret key.
    pub fn secret_bytes(&self) -> (r: &Vec<u8>)
        ensures
            r@ == self@,
            valid_secret_key(r@),
    {
        proof {
            use_type_invariant(self);
        }
        &self.key
    }

    /// The signature of `message`.
    pub fn sign(&self, message: &str) -> (r: String)
        ensures
            r@ == signature_text(self@, message@),
    {
        proof {
            use_type_invariant(self);
        }
        sign_hex(&self.key, message)
    }
}

/// What is said of text that is not hexadecimal.
pub open spec fn bad_hex(s: Seq<char>) -> Seq<char> {
    if vstd::utf8::encode_utf8(s).len() % 2 == 1 {
        "Odd number of digits"@
    } else if shown_plainly(s[first_bad(s) as int]) {
        "Invalid character '"@ + seq![s[first_bad(s) as int]] + "' at position "@ + text::decimal(
            first_bad(s),
        )
    } else {
        hex_decode_error(s)
    }
}

/// The secret key that `s` writes in hexadecimal digits, or what is wrong with it.
pub open spec fn key_from_hex(s: Seq<char>) -> Result<Seq<u8>, Seq<char>> {
    if !is_hex(s) {
        Err(bad_hex(s))
    } else if !valid_secret_key(hex_bytes(s)) {
        Err(bad_key())
    } else {
        Ok(hex_bytes(s))
    }
}

/// The identity whose secret key `private_key_hex` writes.
pub fn sessionless_from_hex(private_key_hex: &str) -> (r: Result<Identity, String>)
    ensures
        match key_from_hex(private_key_hex@) {
            Ok(key) => r matches Ok(identity) && identity@ == key,
            Err(why) => r matches Err(e) && e@ == why,
        },
{
    match decode_hex(private_key_hex) {
        Err(e) => Err(e),
        Ok(bytes) => match check_key(&bytes) {
            Err(e) => Err(e),
            Ok(key) => Ok(Identity { key }),
        },
    }
}

/// A key pair as it is kept on file.
#[derive(Clone, Debug)]
pub struct BdoKeypair {
    pub private_key_hex: String,
    pub pub_key_hex: String,
}

#[verifier::ext_equal]
pub struct KeypairView {
    pub private_key_hex: Seq<char>,
    pub pub_key_hex: Seq<char>,
}

impl View for BdoKeypair {
    type V = KeypairView;

    open spec fn view(&self) -> KeypairView {
        KeypairView { private_key_hex: self.private_key_hex@, pub_key_hex: self.pub_key_hex@ }
    }
}

/// The key pair of a secret key, as it is kept on file.
pub open spec fn keypair(key: Seq<u8>) -> KeypairView {
    KeypairView { private_key_hex: hex_text(key), pub_key_hex: public_key_text(key) }
}

/// The identity on file under `name`, if there is one that can be read. No key
/// is ever made here: who never published has nothing to take down.
pub fn existing_bdo_sessionless(keys: &StrMap<BdoKeypair>, name: &str) -> (r: Option<Identity>)
    ensures
        r is Some <==> keys@.contains_key(name@) && key_from_hex(
            keys@[name@].private_key_hex,
        ) is Ok,
        r matches Some(identity) ==> Ok::<Seq<u8>, Seq<char>>(identity@) == key_from_hex(
            keys@[name@].private_key_hex,
        ),
{
    match keys.get(name) {
        Some(pair) => match sessionless_from_hex(pair.private_key_hex.as_str()) {
            Ok(identity) => Some(identity),
            Err(_) => None,
        },
        None => None,
    }
}

/// Puts the key pair of `identity` on file under `name`.
pub fn remember_identity(keys: &mut StrMap<BdoKeypair>, name: &str, identity: &Identity)
    ensures
        final(keys)@ == old(keys)@.insert(name@, keypair(identity@)),
{
    proof {
        use_type_invariant(identity);
    }
    let pair = BdoKeypair {
        private_key_hex: key_to_hex(&identity.key),
        pub_key_hex: public_key_hex(&identity.key),
    };
    keys.insert(name.to_string(), pair);
}

/// An identity, and whether it was made just now, so that the keys have to be
/// written down.
pub struct LoadedIdentity {
    pub identity: Identity,
    pub created: bool,
}

/// Whether looking for the identity of `name` in the keys `before` may come out
/// as `r` and leave the keys `after`: an identity on file is the one that is
/// found, and what is wrong with it is told; only a name without one gets a
/// new identity, which is put on file.
pub open spec fn loaded(
    before: Map<Seq<char>, KeypairView>,
    name: Seq<char>,
    after: Map<Seq<char>, KeypairView>,
    r: Result<LoadedIdentity, String>,
) -> bool {
    if before.contains_key(name) {
        after == before && match key_from_hex(before[name].private_key_hex) {
            Ok(key) => r matches Ok(found) && found.identity@ == key && !found.created,
            Err(why) => r matches Err(e) && e@ == why,
        }
    } else {
        r matches Ok(found) && found.created && valid_secret_key(found.identity@) && after
            == before.insert(name, keypair(found.identity@))
    }
}

/// The identity on file under `name`. The first time that a name is asked for,
/// an identity is made at random and put on file.
pub fn load_or_create_bdo_sessionless(keys: &mut StrMap<BdoKeypair>, name: &str) -> (r: Result<
    LoadedIdentity,
    String,
>)
    ensures
        loaded(old(keys)@, name@, final(keys)@, r),
{
    if let Some(pair) = keys.get(name) {
        return match sessionless_from_hex(pair.private_key_hex.as_str()) {
            Ok(identity) => Ok(LoadedIdentity { identity, created: false }),
            Err(e) => Err(e),
        };
    }
    let identity = Identity { key: random_key() };
    proof {
        use_type_invariant(&identity);
    }
    remember_identity(keys, name, &identity);
    Ok(LoadedIdentity { identity, created: true })
}

// ---------------------------------------------------------------------------
// What holds of keys on file

proof fn lemma_hex_digit(n: nat)
    requires
        n < 16,
    ensures
        digit_value(hex_digit(n)) == Some(n),
{
}

/// Bytes that were written in hexadecimal digits can be read back.
pub proof fn law_hex_round_trip(bytes: Seq<u8>)
    ensures
        is_hex(hex_text(bytes)),
        hex_bytes(hex_text(bytes)) == bytes,
{
    let s = hex_text(bytes);
    assert forall|i: int| 0 <= i < s.len() implies digit_value(#[trigger] s[i]) is Some by {
        lemma_hex_digit(bytes[i / 2] as nat / 16);
        lemma_hex_digit(bytes[i / 2] as nat % 16);
    }
    let back = hex_bytes(s);
    assert forall|i: int| 0 <= i < bytes.len() implies #[trigger] back[i] == bytes[i] by {
        let b = bytes[i] as nat;
        lemma_hex_digit(b / 16);
        lemma_hex_digit(b % 16);
        assert((2 * i) / 2 == i && (2 * i) % 2 == 0);
        assert((2 * i + 1) / 2 == i && (2 * i + 1) % 2 == 1);
        assert(s[2 * i] == hex_digit(b / 16));
        assert(s[2 * i + 1] == hex_digit(b % 16));
        assert(b / 16 * 16 + b % 16 == b);
    }
    assert(back =~= bytes);
}

/// An identity that was put on file is the one that is found there later.
pub proof fn law_identity_survives_storage(key: Seq<u8>)
    requires
        valid_secret_key(key),
    ensures
        key_from_hex(keypair(key).private_key_hex) == Ok::<Seq<u8>, Seq<char>>(key),
{
    law_hex_round_trip(key);
}

/// The identity of a name does not change: whoever asks for it again finds the
/// one that they got the first time, and nothing new is put on file.
pub proof fn law_identity_stays(
    before: Map<Seq<char>, KeypairView>,
    name: Seq<char>,
    between: Map<Seq<char>, KeypairView>,
    first: Result<LoadedIdentity, String>,
    after: Map<Seq<char>, KeypairView>,
    second: Result<LoadedIdentity, String>,
)
    requires
        loaded(before, name, between, first),
        loaded(between, name, after, second),
        first is Ok,
    ensures
        second matches Ok(again) && first matches Ok(found) && again.identity@ == found.identity@
            && !again.created,
        after == between,
{
    if let Ok(found) = first {
        if found.created {
            law_identity_survives_storage(found.identity@);
        }
    }
}

/// A key is read from its digits exactly if they are hexadecimal pairs that
/// write a valid key, and it is then the key they write; what is not
/// hexadecimal is told apart from what is no key.
pub proof fn law_what_reads_as_a_key(s: Seq<char>, key: Seq<u8>)
    ensures
        key_from_hex(s) == Ok::<Seq<u8>, Seq<char>>(key) <==> is_hex(s) && valid_secret_key(key)
            && hex_bytes(s) == key,
        !is_hex(s) ==> key_from_hex(s) == Err::<Seq<u8>, Seq<char>>(bad_hex(s)),
        is_hex(s) && !valid_secret_key(hex_bytes(s)) ==> key_from_hex(s) == Err::<
            Seq<u8>,
            Seq<char>,
        >("malformed or out-of-range secret key"@),
{
}

/// Looking for the identity of a name leaves the identities of all other names
/// alone, and never replaces one that is on file. Only a name without one gets
/// a new one, and that is the one on file from then on.
pub proof fn law_other_identities_are_left_alone(
    before: Map<Seq<char>, KeypairView>,
    name: Seq<char>,
    after: Map<Seq<char>, KeypairView>,
    r: Result<LoadedIdentity, String>,
    other: Seq<char>,
)
    requires
        loaded(before, name, after, r),
    ensures
        before.contains_key(other) ==> after.contains_key(other) && after[other] == before[other],
        other != name ==> after.contains_key(other) == before.contains_key(other),
        r matches Ok(found) ==> after.contains_key(name) && key_from_hex(
            after[name].private_key_hex,
        ) == Ok::<Seq<u8>, Seq<char>>(found.identity@) && found.created
            == !before.contains_key(name),
        r is Err ==> before.contains_key(name) && after == before,
        r matches Err(e) ==> key_from_hex(before[name].private_key_hex) == Err::<
            Seq<u8>,
            Seq<char>,
        >(e@),
{
    if let Ok(found) = r {
        if found.created {
            law_identity_survives_storage(found.identity@);
        }
    }
}

/// What is kept of a key is its own digits and those of its public key.
pub proof fn law_keypair_is_of_its_key(key: Seq<u8>, pair: BdoKeypair)
    ensures
        keypair(key).private_key_hex == hex_text(key),
        keypair(key).pub_key_hex == public_key_text(key),
        pair@.private_key_hex == pair.private_key_hex@,
        pair@.pub_key_hex == pair.pub_key_hex@,
{
}

} // verus!
