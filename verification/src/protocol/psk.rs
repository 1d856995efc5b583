//! Key derivation from a pairing code.
//!
//! Both sides of a connection know the pairing code. HKDF-SHA256 turns that
//! low-entropy human string into fixed-size secrets, one per purpose.
//!
//! Salt and info strings are versioned, so that breaking changes to the
//! derivation can coexist with older receivers.

use hkdf::Hkdf;
use sha2::Sha256;
use vstd::prelude::*;

verus! {

/// HKDF salt: `zerowire/v1/psk`. Changing it invalidates all pairings.
pub const PSK_SALT: [u8; 15] = [
    0x7A, 0x65, 0x72, 0x6F, 0x77, 0x69, 0x72, 0x65, 0x2F, 0x76, 0x31, 0x2F, 0x70, 0x73, 0x6B,
];

/// HKDF info of the root key: `tls-psk`.
pub const PSK_INFO: [u8; 7] = [0x74, 0x6C, 0x73, 0x2D, 0x70, 0x73, 0x6B];

/// HKDF info of the Ed25519 seed of the TLS certificate:
/// `zerowire/v1/tls-cert-key`. Distinct from `PSK_INFO`, so that the two
/// secrets cannot be taken for each other.
pub const TLS_CERT_KEY_INFO: [u8; 24] = [
    0x7A, 0x65, 0x72, 0x6F, 0x77, 0x69, 0x72, 0x65, 0x2F, 0x76, 0x31, 0x2F, 0x74, 0x6C, 0x73, 0x2D,
    0x63, 0x65, 0x72, 0x74, 0x2D, 0x6B, 0x65, 0x79,
];

/// Size in bytes of the derived secrets.
pub const PSK_LEN: usize = 32;

/// The first 32 bytes that HKDF-SHA256 (RFC 5869) derives from salt, input key
/// material and info.
pub uninterp spec fn hkdf_sha256(salt: Seq<u8>, ikm: Seq<u8>, info: Seq<u8>) -> Seq<u8>;

/// `Hkdf::<Sha256>::new` (extract) and `Hkdf::expand` to 32 bytes. The contract
/// names the result, a function of the three arguments. `expand` fails only
/// for outputs of more than 255 blocks, so never here. That different arguments
/// give different results is not stated: it is a matter of odds, not a fact of
/// the function.
#[verifier::external_body]
fn hkdf_32(salt: &[u8], ikm: &[u8], info: &[u8]) -> (out: [u8; 32])
    ensures
        out@ == hkdf_sha256(salt@, ikm@, info@),
{
    let hk = Hkdf::<Sha256>::new(Some(salt), ikm);
    let mut out = [0u8; 32];
    hk.expand(info, &mut out).expect("32 bytes is within HKDF-SHA256's output limit");
    out
}

/// The secret that a pairing code and an info string give.
pub open spec fn subkey(code: Seq<char>, info: Seq<u8>) -> Seq<u8> {
    hkdf_sha256(PSK_SALT@, vstd::utf8::encode_utf8(code), info)
}

/// Derives the 256-bit root key from a pairing code: typically six digits, but
/// any text will do.
pub fn derive_psk(pairing_code: &str) -> (k: [u8; 32])
    ensures
        k@ == subkey(pairing_code@, PSK_INFO@),
        k@ == hkdf_sha256(PSK_SALT@, vstd::utf8::encode_utf8(pairing_code@), PSK_INFO@),
{
    derive_with_info(pairing_code, &PSK_INFO)
}

/// Derives the seed of the TLS certificate's key. Both sides compute the same
/// seed and therefore present the same certificate.
pub fn derive_tls_cert_seed(pairing_code: &str) -> (k: [u8; 32])
    ensures
        k@ == subkey(pairing_code@, TLS_CERT_KEY_INFO@),
        k@ == hkdf_sha256(PSK_SALT@, vstd::utf8::encode_utf8(pairing_code@), TLS_CERT_KEY_INFO@),
{
    derive_with_info(pairing_code, &TLS_CERT_KEY_INFO)
}

/// HKDF-SHA256 with `PSK_SALT`, the bytes of the pairing code and the given
/// info, for callers that need further keys.
pub fn derive_with_info(pairing_code: &str, info: &[u8]) -> (k: [u8; 32])
    ensures
        k@ == subkey(pairing_code@, info@),
        k@ == hkdf_sha256(PSK_SALT@, vstd::utf8::encode_utf8(pairing_code@), info@),
{
    hkdf_32(&PSK_SALT, pairing_code.as_bytes(), info)
}

/// The two purposes never ask HKDF for the same thing: their info strings
/// differ.
pub proof fn lemma_infos_differ()
    ensures
        PSK_INFO@ != TLS_CERT_KEY_INFO@,
{
    assert(PSK_INFO@.len() != TLS_CERT_KEY_INFO@.len());
}

/// Two pairing codes never give HKDF the same key material: their bytes
/// differ.
pub proof fn lemma_codes_differ(a: Seq<char>, b: Seq<char>)
    requires
        a != b,
    ensures
        vstd::utf8::encode_utf8(a) != vstd::utf8::encode_utf8(b),
{
    vstd::utf8::encode_utf8_decode_utf8(a);
    vstd::utf8::encode_utf8_decode_utf8(b);
}

/// The salt and the two infos are the bytes of their texts.
pub proof fn lemma_salt_and_infos()
    ensures
        PSK_SALT@ == vstd::utf8::encode_utf8("zerowire/v1/psk"@),
        PSK_INFO@ == vstd::utf8::encode_utf8("tls-psk"@),
        TLS_CERT_KEY_INFO@ == vstd::utf8::encode_utf8("zerowire/v1/tls-cert-key"@),
{
    reveal_strlit("zerowire/v1/psk");
    reveal_strlit("tls-psk");
    reveal_strlit("zerowire/v1/tls-cert-key");
    vstd::utf8::is_ascii_chars_encode_utf8("zerowire/v1/psk"@);
    vstd::utf8::is_ascii_chars_encode_utf8("tls-psk"@);
    vstd::utf8::is_ascii_chars_encode_utf8("zerowire/v1/tls-cert-key"@);
    assert(PSK_SALT@ =~= vstd::utf8::encode_utf8("zerowire/v1/psk"@));
    assert(PSK_INFO@ =~= vstd::utf8::encode_utf8("tls-psk"@));
    assert(TLS_CERT_KEY_INFO@ =~= vstd::utf8::encode_utf8("zerowire/v1/tls-cert-key"@));
}

} // verus!
