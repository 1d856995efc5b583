//! The TLS identity of a pairing code.
//!
//! Both sides derive the same Ed25519 key from the pairing code and the same
//! self-signed certificate from that key, and each accepts exactly that
//! certificate of the other. A peer that does not know the code can produce
//! neither.

use ed25519_dalek::pkcs8::EncodePrivateKey;
use ed25519_dalek::SigningKey;
use rcgen::{CertificateParams, DistinguishedName, DnType, KeyPair, KeyUsagePurpose};
use sha2::{Digest, Sha256};
use vstd::prelude::*;

use crate::protocol::psk::{
    derive_tls_cert_seed, hkdf_sha256, subkey, PSK_SALT, TLS_CERT_KEY_INFO,
};

verus! {

/// The SHA-256 digest of some bytes.
pub uninterp spec fn sha256(data: Seq<u8>) -> Seq<u8>;

/// `Sha256::digest`. The contract names the digest.
#[verifier::external_body]
fn sha256_digest(data: &[u8]) -> (d: [u8; 32])
    ensures
        d@ == sha256(data@),
{
    Sha256::digest(data).into()
}

/// The PKCS#8 DER encoding of the Ed25519 key pair with the given seed.
pub uninterp spec fn ed25519_pkcs8(seed: Seq<u8>) -> Option<Seq<u8>>;

/// `SigningKey::from_bytes` and its `to_pkcs8_der`. The contract names the
/// result, a function of the seed; `None` stands for an encoding error.
#[verifier::external_body]
fn signing_key_der(seed: &[u8; 32]) -> (r: Option<Vec<u8>>)
    ensures
        match r {
            Some(der) => ed25519_pkcs8(seed@) == Some(der@),
            None => ed25519_pkcs8(seed@) is None,
        },
{
    match SigningKey::from_bytes(seed).to_pkcs8_der() {
        Ok(doc) => Some(doc.as_bytes().to_vec()),
        Err(_) => None,
    }
}

/// What a certificate's key may be used for.
#[derive(Clone, Copy, Debug, PartialEq, Eq, Structural)]
pub enum KeyUse {
    DigitalSignature,
    KeyAgreement,
}

/// A calendar date.
#[derive(Clone, Copy, Debug, PartialEq, Eq, Structural)]
pub struct CertDate {
    pub year: i32,
    pub month: u8,
    pub day: u8,
}

impl CertDate {
    /// Whether the date exists in every year, with a year of four digits.
    pub open spec fn valid(self) -> bool {
        &&& 1000 <= self.year <= 9999
        &&& 1 <= self.month <= 12
        &&& 1 <= self.day
        &&& self.day <= if self.month == 2 {
            28int
        } else if self.month == 4 || self.month == 6 || self.month == 9 || self.month == 11 {
            30
        } else {
            31
        }
    }
}

/// The DER encoding of the self-signed certificate for a PKCS#8 Ed25519 key,
/// with the given subject alternative name, common name, key uses, first and
/// last day of validity and serial number.
pub uninterp spec fn self_signed_cert(
    key_der: Seq<u8>,
    san: Seq<char>,
    common_name: Seq<char>,
    uses: Seq<KeyUse>,
    not_before: CertDate,
    not_after: CertDate,
    serial: Seq<u8>,
) -> Option<Seq<u8>>;

/// rcgen's `CertificateParams::self_signed` with the given parameters, for the
/// key that `KeyPair::try_from` reads. The contract names the result: with the
/// dates and the serial number given, nothing else goes into the certificate,
/// and Ed25519, unlike the other key types that rcgen reads, signs without
/// randomness. `None` stands for rcgen's errors: an unreadable key, a name
/// that is no IA5 string, a failed signature. `date_time_ymd` panics on dates
/// that do not exist.
#[verifier::external_body]
fn certificate_der(
    key_der: &[u8],
    san: &str,
    common_name: &str,
    uses: [KeyUse; 2],
    not_before: CertDate,
    not_after: CertDate,
    serial: &[u8],
) -> (r: Option<Vec<u8>>)
    requires
        exists|seed: Seq<u8>| seed.len() == 32 && ed25519_pkcs8(seed) == Some(key_der@),
        not_before.valid(),
        not_after.valid(),
    ensures
        match r {
            Some(der) => self_signed_cert(
                key_der@,
                san@,
                common_name@,
                uses@,
                not_before,
                not_after,
                serial@,
            ) == Some(der@),
            None => self_signed_cert(
                key_der@,
                san@,
                common_name@,
                uses@,
                not_before,
                not_after,
                serial@,
            ) is None,
        },
{
    let key_pair = KeyPair::try_from(key_der).ok()?;
    let mut params = CertificateParams::new(vec![san.to_string()]).ok()?;
    params.distinguished_name = DistinguishedName::new();
    params.distinguished_name.push(DnType::CommonName, common_name);
    let purpose = |u| match u {
        KeyUse::DigitalSignature => KeyUsagePurpose::DigitalSignature,
        KeyUse::KeyAgreement => KeyUsagePurpose::KeyAgreement,
    };
    params.key_usages = uses.map(purpose).to_vec();
    params.not_before = rcgen::date_time_ymd(not_before.year, not_before.month, not_before.day);
    params.not_after = rcgen::date_time_ymd(not_after.year, not_after.month, not_after.day);
    params.serial_number = Some(serial.to_vec().into());
    Some(params.self_signed(&key_pair).ok()?.der().to_vec())
}

/// Subject alternative name of the certificate, and the server name that
/// clients ask for.
pub const SERVER_NAME: &'static str = "zerowire-psk.local";

/// Common name of the certificate.
pub const COMMON_NAME: &'static str = "zerowire-psk";

/// Why an identity cannot be made.
#[derive(Clone, Copy, Debug, PartialEq, Eq, Structural)]
pub enum IdentityError {
    /// The key cannot be encoded.
    Key,
    /// The certificate cannot be made.
    Certificate,
}

/// The identity of a pairing code: a self-signed Ed25519 certificate and its
/// private key, the same bytes on both sides.
#[derive(Clone, Debug)]
pub struct PskIdentity {
    pub cert_der: Vec<u8>,
    pub key_der: Vec<u8>,
    /// SHA-256 of `cert_der`, a handle for logs.
    pub fingerprint: [u8; 32],
}

/// The serial number of a certificate: the first half of a digest.
pub fn serial_number(digest: &[u8; 32]) -> (s: Vec<u8>)
    ensures
        s@ == digest@.take(16),
{
    let head = vstd::slice::slice_subrange(digest.as_slice(), 0, 16);
    assert(head@ =~= digest@.take(16));
    vstd::slice::slice_to_vec(head)
}

/// The certificate for the key of the given seed: valid from 2020 to 2099, its
/// serial number the first 16 bytes of the seed's digest. Nothing about it
/// depends on when or where it is made.
pub open spec fn identity_cert(seed: Seq<u8>) -> Option<Seq<u8>> {
    self_signed_cert(
        ed25519_pkcs8(seed)->Some_0,
        SERVER_NAME@,
        COMMON_NAME@,
        seq![KeyUse::DigitalSignature, KeyUse::KeyAgreement],
        CertDate { year: 2020, month: 1, day: 1 },
        CertDate { year: 2099, month: 12, day: 31 },
        sha256(seed).take(16),
    )
}

impl PskIdentity {
    /// Whether this is the identity of a seed.
    pub open spec fn is_of(self, seed: Seq<u8>) -> bool {
        &&& ed25519_pkcs8(seed) == Some(self.key_der@)
        &&& identity_cert(seed) == Some(self.cert_der@)
        &&& self.fingerprint@ == sha256(self.cert_der@)
    }

    /// Derives the identity of a pairing code.
    pub fn derive(pairing_code: &str) -> (r: Result<PskIdentity, IdentityError>)
        ensures
            derives(pairing_code@, r),
            r matches Ok(id) ==> {
                let seed = hkdf_sha256(
                    PSK_SALT@,
                    vstd::utf8::encode_utf8(pairing_code@),
                    TLS_CERT_KEY_INFO@,
                );
                &&& ed25519_pkcs8(seed) == Some(id.key_der@)
                &&& self_signed_cert(
                    id.key_der@,
                    "zerowire-psk.local"@,
                    "zerowire-psk"@,
                    seq![KeyUse::DigitalSignature, KeyUse::KeyAgreement],
                    CertDate { year: 2020, month: 1, day: 1 },
                    CertDate { year: 2099, month: 12, day: 31 },
                    sha256(seed).take(16),
                ) == Some(id.cert_der@)
                &&& id.fingerprint@ == sha256(id.cert_der@)
            },
    {
        let seed = derive_tls_cert_seed(pairing_code);
        let key_der = match signing_key_der(&seed) {
            Some(der) => der,
            None => return Err(IdentityError::Key),
        };
        assert(seed@.len() == 32);
        let serial = serial_number(&sha256_digest(&seed));
        let uses: [KeyUse; 2] = [KeyUse::DigitalSignature, KeyUse::KeyAgreement];
        assert(uses@ =~= seq![KeyUse::DigitalSignature, KeyUse::KeyAgreement]);
        let cert_der = match certificate_der(
            key_der.as_slice(),
            SERVER_NAME,
            COMMON_NAME,
            uses,
            CertDate { year: 2020, month: 1, day: 1 },
            CertDate { year: 2099, month: 12, day: 31 },
            serial.as_slice(),
        ) {
            Some(der) => der,
            None => return Err(IdentityError::Certificate),
        };
        let fingerprint = sha256_digest(cert_der.as_slice());
        Ok(PskIdentity { cert_der, key_der, fingerprint })
    }
}

/// Whether `r` is what a pairing code comes to: its identity, or why it has none.
pub open spec fn derives(code: Seq<char>, r: Result<PskIdentity, IdentityError>) -> bool {
    let seed = subkey(code, TLS_CERT_KEY_INFO@);
    match r {
        Ok(id) => id.is_of(seed),
        Err(IdentityError::Key) => ed25519_pkcs8(seed) is None,
        Err(IdentityError::Certificate) => ed25519_pkcs8(seed) is Some && identity_cert(
            seed,
        ) is None,
    }
}

/// Accepts a peer whose certificate is, byte for byte, the expected one.
#[derive(Debug)]
pub struct PinnedPeerVerifier {
    pub expected: Vec<u8>,
}

impl PinnedPeerVerifier {
    /// The verifier for peers of an identity.
    pub fn new(identity: &PskIdentity) -> (v: PinnedPeerVerifier)
        ensures
            v.expected@ == identity.cert_der@,
    {
        PinnedPeerVerifier { expected: vstd::slice::slice_to_vec(identity.cert_der.as_slice()) }
    }

    /// Whether the presented certificate is the expected one. The time this
    /// takes depends on the lengths alone.
    pub fn matches(&self, presented: &[u8]) -> (r: bool)
        ensures
            r == (self.expected@ == presented@),
    {
        if self.expected.len() != presented.len() {
            return false;
        }
        let mut diff: u8 = 0;
        let mut i: usize = 0;
        while i < presented.len()
            invariant
                i <= presented@.len(),
                self.expected@.len() == presented@.len(),
                diff == 0 <==> (forall|j: int| 0 <= j < i ==> self.expected@[j] == presented@[j]),
            decreases presented@.len() - i,
        {
            let a: u8 = self.expected[i];
            let b: u8 = presented[i];
            assert((diff | (a ^ b)) == 0 <==> (diff == 0 && a == b)) by (bit_vector);
            diff = diff | (a ^ b);
            i += 1;
        }
        assert(diff == 0 ==> self.expected@ =~= presented@);
        diff == 0
    }
}

/// A pairing code that has once given an identity gives it again, at any time and
/// on the other side: the same certificate, key and fingerprint, which is the
/// certificate's SHA-256. So each side accepts the other.
pub proof fn lemma_same_code_same_identity(
    code: Seq<char>,
    a: PskIdentity,
    r: Result<PskIdentity, IdentityError>,
)
    requires
        derives(code, Ok(a)),
        derives(code, r),
    ensures
        r matches Ok(b) && b.cert_der@ == a.cert_der@ && b.key_der@ == a.key_der@ && b.fingerprint@
            == a.fingerprint@ && b.fingerprint@ == sha256(a.cert_der@),
{
}

/// What the identity of a code is made of: the key of the seed that the code
/// gives, a certificate for just that key, and the certificate's digest. An
/// identity fails only where the key or the certificate cannot be made.
pub proof fn lemma_identity_of_code(code: Seq<char>, r: Result<PskIdentity, IdentityError>)
    requires
        derives(code, r),
    ensures
        ({
            let seed = hkdf_sha256(
                PSK_SALT@,
                vstd::utf8::encode_utf8(code),
                TLS_CERT_KEY_INFO@,
            );
            let key = ed25519_pkcs8(seed);
            let cert = self_signed_cert(
                key->Some_0,
                "zerowire-psk.local"@,
                "zerowire-psk"@,
                seq![KeyUse::DigitalSignature, KeyUse::KeyAgreement],
                CertDate { year: 2020, month: 1, day: 1 },
                CertDate { year: 2099, month: 12, day: 31 },
                sha256(seed).take(16),
            );
            &&& r is Ok <==> key is Some && cert is Some
            &&& r == Err::<PskIdentity, IdentityError>(IdentityError::Key) <==> key is None
            &&& r matches Ok(id) ==> key == Some(id.key_der@) && cert == Some(id.cert_der@)
                && id.fingerprint@ == sha256(id.cert_der@)
        }),
{
}

} // verus!
