//! The AEAD methods, their parameters, and the trial authentication of a
//! handshake prefix under one password.

use vstd::prelude::*;
use vstd::string::StringSliceAdditionalSpecFns;
use vstd::utf8::encode_utf8;

verus! {

/// An AEAD method of the tunnel protocol.
#[derive(Debug, Clone, Copy, PartialEq, Eq, Structural)]
pub enum AEADMethod {
    AES128GCM,
    AES256GCM,
    CHACHA20POLY1305,
}

/// Length of the handshake prefix read before a connection is routed: the
/// largest salt (32 bytes), the two-byte length field and its 16-byte tag.
pub const HANDSHAKE_LEN: usize = 50;

/// Info label of the subkey derivation.
pub const SUBKEY_INFO: [u8; 9] = [115, 115, 45, 115, 117, 98, 107, 101, 121];

/// Length of the nonce of every supported method.
pub const NONCE_LEN: usize = 12;

impl AEADMethod {
    pub open spec fn salt_size(self) -> nat {
        match self {
            AEADMethod::AES128GCM => 16,
            AEADMethod::AES256GCM => 32,
            AEADMethod::CHACHA20POLY1305 => 32,
        }
    }

    pub open spec fn key_size(self) -> nat {
        match self {
            AEADMethod::AES128GCM => 16,
            AEADMethod::AES256GCM => 32,
            AEADMethod::CHACHA20POLY1305 => 32,
        }
    }

    /// Salt, then the two-byte length field, then its 16-byte tag.
    pub open spec fn frame_size(self) -> nat {
        self.salt_size() + 2 + 16
    }

    /// The canonical lower-case name of the method.
    pub open spec fn spec_name(self) -> Seq<char> {
        match self {
            AEADMethod::AES128GCM => "aes-128-gcm"@,
            AEADMethod::AES256GCM => "aes-256-gcm"@,
            AEADMethod::CHACHA20POLY1305 => "chacha20-ietf-poly1305"@,
        }
    }

    pub fn salt_len(&self) -> (r: usize)
        ensures
            r == self.salt_size(),
    {
        match self {
            AEADMethod::AES128GCM => 16,
            AEADMethod::AES256GCM => 32,
            AEADMethod::CHACHA20POLY1305 => 32,
        }
    }

    pub fn key_len(&self) -> (r: usize)
        ensures
            r == self.key_size(),
    {
        match self {
            AEADMethod::AES128GCM => 16,
            AEADMethod::AES256GCM => 32,
            AEADMethod::CHACHA20POLY1305 => 32,
        }
    }

    pub fn buffer_len(&self) -> (r: usize)
        ensures
            r == self.frame_size(),
            r <= HANDSHAKE_LEN,
    {
        match self {
            AEADMethod::AES128GCM => 16 + 2 + 16,
            AEADMethod::AES256GCM => 32 + 2 + 16,
            AEADMethod::CHACHA20POLY1305 => 32 + 2 + 16,
        }
    }

    /// The canonical lower-case name, as written in a configuration.
    pub fn name(&self) -> (r: &'static str)
        ensures
            r@ == self.spec_name(),
    {
        proof {
            reveal_strlit("aes-128-gcm");
            reveal_strlit("aes-256-gcm");
            reveal_strlit("chacha20-ietf-poly1305");
        }
        match self {
            AEADMethod::AES128GCM => "aes-128-gcm",
            AEADMethod::AES256GCM => "aes-256-gcm",
            AEADMethod::CHACHA20POLY1305 => "chacha20-ietf-poly1305",
        }
    }

    /// Relies on ring's AEAD algorithm statics: the algorithm that implements
    /// this method.
    #[verifier::external_body]
    pub fn get_algorithm(self) -> &'static ring::aead::Algorithm {
        match self {
            AEADMethod::AES128GCM => &ring::aead::AES_128_GCM,
            AEADMethod::AES256GCM => &ring::aead::AES_256_GCM,
            AEADMethod::CHACHA20POLY1305 => &ring::aead::CHACHA20_POLY1305,
        }
    }
}

#[verifier::external_type_specification]
#[verifier::external_body]
pub struct ExAlgorithm(ring::aead::Algorithm);

/// Length of the handshake prefix, enough for every method.
pub fn buffer_len() -> (r: usize)
    ensures
        r == HANDSHAKE_LEN,
{
    32 + 2 + 16
}

/// The ASCII lower-case form of a byte; other bytes are kept.
pub open spec fn ascii_lower(c: u8) -> u8 {
    if 65 <= c && c <= 90 {
        (c + 32) as u8
    } else {
        c
    }
}

/// The ASCII lower-case form of a byte string.
pub open spec fn lower_bytes(s: Seq<u8>) -> Seq<u8> {
    s.map_values(|c: u8| ascii_lower(c))
}

/// The method whose canonical name `name` spells, ignoring ASCII case.
pub open spec fn method_of_name(name: Seq<u8>) -> Option<AEADMethod> {
    if lower_bytes(name) == "aes-128-gcm".spec_bytes() {
        Some(AEADMethod::AES128GCM)
    } else if lower_bytes(name) == "aes-256-gcm".spec_bytes() {
        Some(AEADMethod::AES256GCM)
    } else if lower_bytes(name) == "chacha20-ietf-poly1305".spec_bytes() {
        Some(AEADMethod::CHACHA20POLY1305)
    } else {
        None
    }
}

/// What `str::trim` leaves of a string.
pub uninterp spec fn trim_of(s: Seq<char>) -> Seq<char>;

/// Relies on `str::trim`: the string without its leading and trailing
/// whitespace, which depends on the characters alone.
#[verifier::external_body]
fn trim(s: &str) -> (r: &str)
    ensures
        r@ == trim_of(s@),
{
    s.trim()
}

pub fn to_ascii_lower(c: u8) -> (r: u8)
    ensures
        r == ascii_lower(c),
{
    if 65 <= c && c <= 90 {
        c + 32
    } else {
        c
    }
}

/// Whether the ASCII lower-case form of `a` is `b`.
pub fn lower_equals(a: &[u8], b: &[u8]) -> (r: bool)
    ensures
        r == (lower_bytes(a@) == b@),
{
    if a.len() != b.len() {
        proof {
            assert(lower_bytes(a@).len() != b@.len());
        }
        return false;
    }
    let mut i: usize = 0;
    while i < a.len()
        invariant
            a@.len() == b@.len(),
            0 <= i <= a@.len(),
            forall|j: int| 0 <= j < i ==> ascii_lower(a@[j]) == b@[j],
        decreases a@.len() - i,
    {
        if to_ascii_lower(a[i]) != b[i] {
            proof {
                assert(lower_bytes(a@)[i as int] != b@[i as int]);
            }
            return false;
        }
        i = i + 1;
    }
    proof {
        assert(lower_bytes(a@) =~= b@);
    }
    true
}

impl AEADMethod {
    /// The method that a name spells, ignoring ASCII case.
    pub fn from_name_bytes(name: &[u8]) -> (r: Option<AEADMethod>)
        ensures
            r == method_of_name(name@),
    {
        if lower_equals(name, "aes-128-gcm".as_bytes()) {
            Some(AEADMethod::AES128GCM)
        } else if lower_equals(name, "aes-256-gcm".as_bytes()) {
            Some(AEADMethod::AES256GCM)
        } else if lower_equals(name, "chacha20-ietf-poly1305".as_bytes()) {
            Some(AEADMethod::CHACHA20POLY1305)
        } else {
            None
        }
    }

    /// The method that a configured name spells, ignoring surrounding
    /// whitespace and ASCII case.
    pub fn from_name(name: &str) -> (r: Option<AEADMethod>)
        ensures
            r == method_of_name(encode_utf8(trim_of(name@))),
    {
        let trimmed = trim(name);
        AEADMethod::from_name_bytes(trimmed.as_bytes())
    }
}

/// What ring's HKDF-SHA1 yields for `method`'s key length, from `secret` as
/// input keying material, `salt` and `info`.
pub uninterp spec fn hkdf_sha1_subkey(
    method: AEADMethod,
    secret: Seq<u8>,
    salt: Seq<u8>,
    info: Seq<u8>,
) -> Seq<u8>;

/// Whether ring's AEAD of `method` authenticates `sealed` (ciphertext then
/// tag) under `key` and `nonce`, with empty associated data.
pub uninterp spec fn aead_opens(
    method: AEADMethod,
    key: Seq<u8>,
    nonce: Seq<u8>,
    sealed: Seq<u8>,
) -> bool;

/// Relies on ring::hkdf (`Salt::new` with `HKDF_SHA1_FOR_LEGACY_USE_ONLY`,
/// `Salt::extract`, `Prk::expand`, `Okm::fill`): the output is a function of
/// the inputs, as long as the key of the method's algorithm (`KeyType` for
/// `&'static Algorithm` is its `key_len`). `expand` fails only above 5100
/// bytes and `fill` only on a length mismatch, neither of which can happen.
#[verifier::external_body]
fn derive_subkey(method: AEADMethod, secret: &[u8], salt: &[u8], info: &[u8]) -> (r: Vec<u8>)
    ensures
        r@ == hkdf_sha1_subkey(method, secret@, salt@, info@),
        r@.len() == method.key_size(),
{
    let algorithm = method.get_algorithm();
    let info = [info];
    let prk = ring::hkdf::Salt::new(ring::hkdf::HKDF_SHA1_FOR_LEGACY_USE_ONLY, salt).extract(secret);
    let okm = prk.expand(&info, algorithm).unwrap();
    let mut key = vec![0u8; algorithm.key_len()];
    okm.fill(&mut key).unwrap();
    key
}

/// Relies on ring::aead (`UnboundKey::new`, `LessSafeKey::open_in_place`):
/// whether `sealed` authenticates. A key of the wrong length is refused by
/// `UnboundKey::new`, which is reported as a failure to authenticate.
#[verifier::external_body]
fn open_sealed(method: AEADMethod, key: &[u8], nonce: [u8; NONCE_LEN], sealed: &[u8]) -> (r: bool)
    ensures
        r == aead_opens(method, key@, nonce@, sealed@),
{
    match ring::aead::UnboundKey::new(method.get_algorithm(), key) {
        Ok(unbound) => {
            let mut in_out = sealed.to_vec();
            ring::aead::LessSafeKey::new(unbound).open_in_place(
                ring::aead::Nonce::assume_unique_for_key(nonce),
                ring::aead::Aad::empty(),
                &mut in_out,
            ).is_ok()
        },
        Err(_) => false,
    }
}

/// The all-zero nonce: each subkey is derived from a fresh salt and used once.
pub open spec fn zero_nonce() -> Seq<u8> {
    Seq::new(NONCE_LEN as nat, |i: int| 0u8)
}

/// The secret material of a password: its UTF-8 bytes.
pub open spec fn secret_of(password: Seq<char>) -> Seq<u8> {
    encode_utf8(password)
}

/// The salt of a handshake prefix under `method`.
pub open spec fn salt_of(method: AEADMethod, buf: Seq<u8>) -> Seq<u8> {
    buf.subrange(0, method.salt_size() as int)
}

/// The sealed length field (two bytes and a tag) of a handshake prefix.
pub open spec fn sealed_length_of(method: AEADMethod, buf: Seq<u8>) -> Seq<u8> {
    buf.subrange(method.salt_size() as int, method.frame_size() as int)
}

/// The subkey of a connection whose handshake prefix is `buf`.
pub open spec fn subkey_of(method: AEADMethod, password: Seq<char>, buf: Seq<u8>) -> Seq<u8> {
    hkdf_sha1_subkey(method, secret_of(password), salt_of(method, buf), SUBKEY_INFO@)
}

/// A handshake prefix authenticates under a password and method when the
/// subkey derived from its salt opens its sealed length field.
pub open spec fn handshake_opens(method: AEADMethod, password: Seq<char>, buf: Seq<u8>) -> bool {
    aead_opens(
        method,
        subkey_of(method, password, buf),
        zero_nonce(),
        sealed_length_of(method, buf),
    )
}

/// Trial authentication of a handshake prefix under one password.
pub fn match_server(password: &String, buf: &[u8; HANDSHAKE_LEN], method: AEADMethod) -> (r: bool)
    ensures
        r == handshake_opens(method, password@, buf@),
{
    let prefix: &[u8] = buf.as_slice();
    let salt_len = method.salt_len();
    let frame_len = method.buffer_len();
    let salt = &prefix[0..salt_len];
    let sealed = &prefix[salt_len..frame_len];
    let info = SUBKEY_INFO;
    let sub_key = derive_subkey(method, password.as_str().as_bytes(), salt, info.as_slice());
    let nonce: [u8; NONCE_LEN] = [0u8; NONCE_LEN];
    proof {
        assert(nonce@ =~= zero_nonce());
    }
    open_sealed(method, sub_key.as_slice(), nonce, sealed)
}

} // verus!
