//! Pairing credentials of this program. They never overwrite Apple's own
//! records.
use crate::certificates::{
    is_full_key, issue, issued_for, refuses, HostKeys, IssuedView, KeysView,
};
use crate::failure::Failure;
use crate::text::{
    all_hex, decoded, is_hex_digit, is_space, lf_text, lower, lowered, trim_text, trimmed,
    trimmed_end, trimmed_start, upper, upper_text, uppered, with_lf,
};
use crate::usbmux::{canonical, canonical_udid, string};
use crate::value::{
    a_dictionary_holds_its_items, collected, collected_lookup, comes_back, data_in, dict_in,
    last_under, lookup, no_list, number_in, parse, plist_binary, plist_parsed, stored, text_in,
    to_binary, Dict, Plist, Tree,
};
use crate::wire::{copy_bytes, same_bytes};
use vstd::prelude::*;
use vstd::utf8::{decode_utf8, encode_utf8, valid_utf8};

verus! {

/// The largest stored record.
pub const RECORD_LIMIT: usize = 131_072;

/// The version of the records that this program makes. Earlier ones had
/// certificates that some phones take for self-signed.
pub const FORMAT_VERSION: u64 = 3;

/// The size of the RSA keys that this program makes.
pub const KEY_BITS: usize = 2048;

/// An RSA public key of the `rsa` crate.
#[verifier::external_type_specification]
#[verifier::external_body]
pub struct ExRsaPublicKey(rsa::RsaPublicKey);

/// Modulus and exponent of a key.
pub uninterp spec fn rsa_parts(k: rsa::RsaPublicKey) -> (nat, nat);

/// The key in a PKCS#1 PEM text, if it is one.
pub uninterp spec fn pkcs1_pem_key(text: Seq<char>) -> Option<(nat, nat)>;

/// The key in a subject public key info PEM text, if it is one.
pub uninterp spec fn spki_pem_key(text: Seq<char>) -> Option<(nat, nat)>;

/// The key in subject public key info bytes, if it is one.
pub uninterp spec fn spki_der_key(der: Seq<u8>) -> Option<(nat, nat)>;

/// The subject public key info bytes of a key, if it can be encoded.
pub uninterp spec fn spki_der(parts: (nat, nat)) -> Option<Seq<u8>>;

/// The first certificate in a PEM text: none, a malformed one, or its bytes.
pub uninterp spec fn pem_certificate(pem: Seq<u8>) -> Option<Option<Seq<u8>>>;

/// The subject public key info bytes of a certificate, if it is one.
pub uninterp spec fn certificate_key(der: Seq<u8>) -> Option<Seq<u8>>;

/// The places of the hyphens in a UUID.
pub open spec fn is_hyphen_place(i: int) -> bool {
    i == 8 || i == 13 || i == 18 || i == 23
}

/// The text is a UUID in its hyphenated form.
pub open spec fn is_hyphenated(text: Seq<char>) -> bool {
    text.len() == 36 && forall|i: int|
        0 <= i < 36 ==> if is_hyphen_place(i) {
            #[trigger] text[i] == '-'
        } else {
            is_hex_digit(text[i])
        }
}

/// The text is a UUID: its digits alone, hyphenated, in braces, or as a URN.
pub open spec fn is_uuid(text: Seq<char>) -> bool {
    ||| text.len() == 32 && all_hex(text)
    ||| is_hyphenated(text)
    ||| text.len() == 38 && text[0] == '{' && text[37] == '}' && is_hyphenated(
        text.subrange(1, 37),
    )
    ||| text.len() == 45 && lowered(text.take(9)) == "urn:uuid:"@ && is_hyphenated(text.skip(9))
}

/// The text is a hyphenated UUID of the kind that is drawn by chance.
pub open spec fn is_random_uuid(text: Seq<char>) -> bool {
    &&& is_hyphenated(text)
    &&& text[14] == '4'
    &&& text[19] == '8' || text[19] == '9' || lower(text[19]) == 'a' || lower(text[19]) == 'b'
}

/// `RsaPublicKey::from_pkcs1_pem`: the key in the text, a function of the text.
#[verifier::external_body]
fn key_from_pkcs1_pem(text: &str) -> (key: Option<rsa::RsaPublicKey>)
    ensures
        match key {
            Some(key) => pkcs1_pem_key(text@) == Some(rsa_parts(key)),
            None => pkcs1_pem_key(text@) is None,
        },
{
    <rsa::RsaPublicKey as rsa::pkcs1::DecodeRsaPublicKey>::from_pkcs1_pem(text).ok()
}

/// `RsaPublicKey::from_public_key_pem`: the key in the text, a function of the
/// text.
#[verifier::external_body]
fn key_from_spki_pem(text: &str) -> (key: Result<rsa::RsaPublicKey, rsa::pkcs8::spki::Error>)
    ensures
        match key {
            Ok(key) => spki_pem_key(text@) == Some(rsa_parts(key)),
            Err(_) => spki_pem_key(text@) is None,
        },
{
    <rsa::RsaPublicKey as rsa::pkcs8::DecodePublicKey>::from_public_key_pem(text)
}

/// `RsaPublicKey::from_public_key_der`: the key in the bytes, a function of the
/// bytes.
#[verifier::external_body]
fn key_from_spki_der(der: &[u8]) -> (key: Result<rsa::RsaPublicKey, rsa::pkcs8::spki::Error>)
    ensures
        match key {
            Ok(key) => spki_der_key(der@) == Some(rsa_parts(key)),
            Err(_) => spki_der_key(der@) is None,
        },
{
    <rsa::RsaPublicKey as rsa::pkcs8::DecodePublicKey>::from_public_key_der(der)
}

/// The key was read from some PEM text.
pub open spec fn was_read(parts: (nat, nat)) -> bool {
    ||| exists|text: Seq<char>| #[trigger] pkcs1_pem_key(text) == Some(parts)
    ||| exists|text: Seq<char>| #[trigger] spki_pem_key(text) == Some(parts)
}

/// `RsaPublicKey::to_public_key_der`: the subject public key info bytes of a key, a
/// function of the key. A key that was read, and so is within the limits of the
/// crate, can be read back from them.
#[verifier::external_body]
fn key_to_spki_der(key: &rsa::RsaPublicKey) -> (der: Result<Vec<u8>, rsa::pkcs8::spki::Error>)
    ensures
        match der {
            Ok(der) => spki_der(rsa_parts(*key)) == Some(der@) && (was_read(rsa_parts(*key))
                ==> spki_der_key(der@) == Some(rsa_parts(*key))),
            Err(_) => spki_der(rsa_parts(*key)) is None,
        },
{
    Ok(rsa::pkcs8::EncodePublicKey::to_public_key_der(key)?.into_vec())
}

/// The equality of `RsaPublicKey`: of modulus and exponent.
#[verifier::external_body]
fn same_key(a: &rsa::RsaPublicKey, b: &rsa::RsaPublicKey) -> (same: bool)
    ensures
        same == (rsa_parts(*a) == rsa_parts(*b)),
{
    a == b
}

/// The first item of `rustls_pemfile::certs`: a function of the bytes.
#[verifier::external_body]
fn first_certificate(pem: &[u8]) -> (first: Option<Result<Vec<u8>, std::io::Error>>)
    ensures
        match first {
            None => pem_certificate(pem@) is None,
            Some(Err(_)) => pem_certificate(pem@) == Some(None::<Seq<u8>>),
            Some(Ok(der)) => pem_certificate(pem@) == Some(Some(der@)),
        },
{
    rustls_pemfile::certs(&mut std::io::Cursor::new(pem)).next().map(|c| c.map(|d| d.to_vec()))
}

/// `x509_parser::parse_x509_certificate` and the key of what it reads: a function
/// of the bytes.
#[verifier::external_body]
fn key_of_certificate(der: &[u8]) -> (key: Option<Vec<u8>>)
    ensures
        match key {
            Some(key) => certificate_key(der@) == Some(key@),
            None => certificate_key(der@) is None,
        },
{
    x509_parser::parse_x509_certificate(der).ok().map(|(_, c)| c.public_key().raw.to_vec())
}

/// `uuid::Uuid::parse_str`: it succeeds on the four forms of a UUID, in either
/// case, and on nothing else.
#[verifier::external_body]
fn parses_as_uuid(text: &str) -> (ok: bool)
    ensures
        ok == is_uuid(text@),
{
    uuid::Uuid::parse_str(text).is_ok()
}

/// `uuid::Uuid::new_v4` in its hyphenated form, with version and variant in their
/// places and small letters. The other digits are left to chance.
#[verifier::external_body]
pub(crate) fn random_uuid() -> (text: String)
    ensures
        is_random_uuid(text@),
        lowered(text@) == text@,
{
    uuid::Uuid::new_v4().to_string()
}

/// The first certificate in what a PEM reader found.
pub fn certificate_found(first: Option<Result<Vec<u8>, std::io::Error>>) -> (der: Result<
    Vec<u8>,
    Failure,
>)
    ensures
        match first {
            None => der matches Err(failure) && failure.says("Missing certificate"@),
            Some(Err(error)) => der matches Err(failure) && failure.under(
                "Invalid certificate PEM"@,
                Failure::Io(error),
            ),
            Some(Ok(bytes)) => der matches Ok(der) && der == bytes,
        },
{
    match first {
        None => Err(Failure::said("Missing certificate")),
        Some(Err(error)) => Err(Failure::Io(error).context("Invalid certificate PEM")),
        Some(Ok(bytes)) => Ok(bytes),
    }
}

/// What reading the first certificate of a PEM text comes to.
pub open spec fn is_certificate_of(pem: Seq<u8>, der: Result<Vec<u8>, Failure>) -> bool {
    match pem_certificate(pem) {
        None => der matches Err(failure) && failure.says("Missing certificate"@),
        Some(None) => der matches Err(Failure::Under(context, inner)) && context@
            == "Invalid certificate PEM"@ && *inner is Io,
        Some(Some(bytes)) => der matches Ok(der) && der@ == bytes,
    }
}

/// The bytes of the first certificate in a PEM text.
pub fn certificate_der(pem: &[u8]) -> (der: Result<Vec<u8>, Failure>)
    ensures
        is_certificate_of(pem@, der),
{
    certificate_found(first_certificate(pem))
}

/// The key in a PEM text of either kind, if it holds one.
pub open spec fn pem_key(pem: Seq<u8>) -> Option<(nat, nat)> {
    if !valid_utf8(pem) {
        None
    } else {
        match pkcs1_pem_key(decode_utf8(pem)) {
            Some(key) => Some(key),
            None => spki_pem_key(decode_utf8(pem)),
        }
    }
}

/// What is reported of a PEM text that holds no key.
pub open spec fn is_key_failure(pem: Seq<u8>, failure: Failure) -> bool {
    if !valid_utf8(pem) {
        failure is Utf8
    } else {
        failure matches Failure::Under(context, inner) && context@
            == "iPhone supplied an invalid RSA public key"@ && *inner is Spki
    }
}

fn parse_public_key(pem: &[u8]) -> (key: Result<rsa::RsaPublicKey, Failure>)
    ensures
        match key {
            Ok(key) => pem_key(pem@) == Some(rsa_parts(key)),
            Err(failure) => pem_key(pem@) is None && is_key_failure(pem@, failure),
        },
{
    let text: String = match decoded(pem) {
        Ok(text) => text,
        Err(failure) => return Err(failure),
    };
    match key_from_pkcs1_pem(text.as_str()) {
        Some(key) => Ok(key),
        None => match key_from_spki_pem(text.as_str()) {
            Ok(key) => Ok(key),
            Err(error) => Err(
                Failure::Spki(error).context("iPhone supplied an invalid RSA public key"),
            ),
        },
    }
}

/// The record has every field that the phone gets to see.
pub open spec fn has_public_fields(pairs: Seq<(Seq<char>, Tree)>) -> bool {
    forall|i: int| 0 <= i < 5 ==> lookup(pairs, (#[trigger] PUBLIC_FIELDS@[i])@) is Some
}

/// The failure names the first field that the phone gets to see and the record lacks.
pub open spec fn misses_field(pairs: Seq<(Seq<char>, Tree)>, failure: Failure) -> bool {
    exists|i: int|
        0 <= i < 5 && lookup(pairs, (#[trigger] PUBLIC_FIELDS@[i])@) is None && (forall|j: int|
            0 <= j < i ==> lookup(pairs, (#[trigger] PUBLIC_FIELDS@[j])@) is Some) && failure.says(
            "Missing "@ + PUBLIC_FIELDS@[i]@,
        )
}

/// A pairing record.
#[derive(Debug)]
pub struct PairRecord(pub Dict);

/// The fields that the phone gets to see.
pub const PUBLIC_FIELDS: [&'static str; 5] = [
    "DeviceCertificate",
    "HostCertificate",
    "RootCertificate",
    "HostID",
    "SystemBUID",
];

/// The first `n` public fields of a record, as far as they are there.
pub open spec fn public_items(pairs: Seq<(Seq<char>, Tree)>, n: int) -> Seq<(Seq<char>, Tree)>
    decreases n,
{
    if n <= 0 {
        Seq::empty()
    } else {
        public_items(pairs, n - 1).push(
            (PUBLIC_FIELDS@[n - 1]@, lookup(pairs, PUBLIC_FIELDS@[n - 1]@).unwrap()),
        )
    }
}

/// What a comparison with the device's key comes to.
pub open spec fn is_match(
    pairs: Seq<(Seq<char>, Tree)>,
    public_key: Seq<u8>,
    matched: Result<bool, Failure>,
) -> bool {
    if number_in(lookup(pairs, "PairingFormatVersion"@)) != Some(FORMAT_VERSION) {
        matched matches Ok(false)
    } else {
        match pem_key(public_key) {
            None => matched matches Err(failure) && is_key_failure(public_key, failure),
            Some(key) => match data_in(lookup(pairs, "DeviceCertificate"@)) {
                None => matched matches Err(failure) && failure.says(
                    "Pair record missing "@ + "DeviceCertificate"@,
                ),
                Some(pem) => match pem_certificate(pem) {
                    Some(Some(der)) => match certificate_key(der) {
                        None => matched matches Err(failure) && failure.says(
                            "Invalid stored device certificate"@,
                        ),
                        Some(info) => match spki_der_key(info) {
                            None => matched matches Err(failure) && failure is Spki,
                            Some(stored_key) => matched matches Ok(same) && same == (stored_key
                                == key),
                        },
                    },
                    _ => matched matches Err(failure) && exists|der: Result<Vec<u8>, Failure>|
                        #[trigger] is_certificate_of(pem, der) && der == Err::<Vec<u8>, Failure>(
                            failure,
                        ),
                },
            },
        }
    }
}

/// Whether the phone's certificate is the expected one.
pub fn pinned(expected: &[u8], der: &[u8]) -> (checked: Result<(), Failure>)
    ensures
        match checked {
            Ok(()) => expected@ == der@,
            Err(failure) => expected@ != der@ && failure.says(
                "iPhone certificate does not match its pairing record"@,
            ),
        },
{
    if same_bytes(expected, der) {
        Ok(())
    } else {
        Err(Failure::said("iPhone certificate does not match its pairing record"))
    }
}

impl PairRecord {
    /// The bytes of a field.
    pub fn data(&self, k: &str) -> (bytes: Result<&Vec<u8>, Failure>)
        ensures
            match data_in(lookup(self.0.pairs(), k@)) {
                Some(data) => bytes matches Ok(bytes) && bytes@ == data,
                None => bytes matches Err(failure) && failure.says("Pair record missing "@ + k@),
            },
    {
        match self.0.data(k) {
            Some(bytes) => Ok(bytes),
            None => Err(Failure::Said("Pair record missing ".to_owned().concat(k))),
        }
    }

    /// The text of a field.
    pub fn text(&self, k: &str) -> (text: Result<&String, Failure>)
        ensures
            match text_in(lookup(self.0.pairs(), k@)) {
                Some(found) => text matches Ok(text) && text@ == found,
                None => text matches Err(failure) && failure.says("Pair record missing "@ + k@),
            },
    {
        match self.0.text(k) {
            Some(text) => Ok(text),
            None => Err(Failure::Said("Pair record missing ".to_owned().concat(k))),
        }
    }

    /// What the phone gets to see of the record.
    pub fn public_record(&self) -> (shown: Result<Plist, Failure>)
        ensures
            match shown {
                Ok(shown) => shown.tree() == Tree::Dict(
                    collected(public_items(self.0.pairs(), 5)),
                ) && has_public_fields(self.0.pairs()),
                Err(failure) => misses_field(self.0.pairs(), failure),
            },
    {
        let ghost pairs = self.0.pairs();
        let mut d: Dict = Dict::new();
        let mut i: usize = 0;
        while i < PUBLIC_FIELDS.len()
            invariant
                pairs == self.0.pairs(),
                PUBLIC_FIELDS@.len() == 5,
                i <= 5,
                d.pairs() == collected(public_items(pairs, i as int)),
                forall|j: int| 0 <= j < i ==> lookup(pairs, (#[trigger] PUBLIC_FIELDS@[j])@) is Some,
            decreases PUBLIC_FIELDS@.len() - i,
        {
            match self.0.get(PUBLIC_FIELDS[i]) {
                Some(value) => {
                    d.insert(PUBLIC_FIELDS[i].to_owned(), value.clone());
                    assert(public_items(pairs, i + 1).drop_last() =~= public_items(
                        pairs,
                        i as int,
                    ));
                },
                None => {
                    assert(lookup(pairs, PUBLIC_FIELDS@[i as int]@) is None);
                    return Err(
                        Failure::Said("Missing ".to_owned().concat(PUBLIC_FIELDS[i])),
                    );
                },
            }
            i = i + 1;
        }
        Ok(Plist::Dict(d))
    }

    /// Whether the record was made for the device with this key, in the current
    /// format.
    pub fn matches_device(&self, public_key: &[u8]) -> (matched: Result<bool, Failure>)
        ensures
            is_match(self.0.pairs(), public_key@, matched),
    {
        match self.0.number("PairingFormatVersion") {
            Some(version) => if version != FORMAT_VERSION {
                return Ok(false);
            },
            None => return Ok(false),
        }
        let key: rsa::RsaPublicKey = match parse_public_key(public_key) {
            Ok(key) => key,
            Err(failure) => return Err(failure),
        };
        let pem: &Vec<u8> = match self.data("DeviceCertificate") {
            Ok(pem) => pem,
            Err(failure) => return Err(failure),
        };
        let read: Result<Vec<u8>, Failure> = certificate_der(pem.as_slice());
        assert(is_certificate_of(pem@, read));
        let der: Vec<u8> = match read {
            Ok(der) => der,
            Err(failure) => return Err(failure),
        };
        let info: Vec<u8> = match key_of_certificate(der.as_slice()) {
            Some(info) => info,
            None => return Err(Failure::said("Invalid stored device certificate")),
        };
        match key_from_spki_der(info.as_slice()) {
            Ok(stored_key) => Ok(same_key(&stored_key, &key)),
            Err(error) => Err(Failure::Spki(error)),
        }
    }

    /// Whether the certificate that the phone showed is the one in the record.
    pub fn verify_peer_certificate(&self, der: &[u8]) -> (checked: Result<(), Failure>)
        ensures
            match data_in(lookup(self.0.pairs(), "DeviceCertificate"@)) {
                None => checked matches Err(failure) && failure.says(
                    "Pair record missing "@ + "DeviceCertificate"@,
                ),
                Some(pem) => match pem_certificate(pem) {
                    Some(Some(expected)) => match checked {
                        Ok(()) => expected == der@,
                        Err(failure) => expected != der@ && failure.says(
                            "iPhone certificate does not match its pairing record"@,
                        ),
                    },
                    _ => checked matches Err(failure) && exists|read: Result<Vec<u8>, Failure>|
                        #[trigger] is_certificate_of(pem, read) && read == Err::<Vec<u8>, Failure>(
                            failure,
                        ),
                },
            },
    {
        let pem: &Vec<u8> = match self.data("DeviceCertificate") {
            Ok(pem) => pem,
            Err(failure) => return Err(failure),
        };
        let read: Result<Vec<u8>, Failure> = certificate_der(pem.as_slice());
        assert(is_certificate_of(pem@, read));
        match read {
            Ok(expected) => pinned(expected.as_slice(), der),
            Err(failure) => Err(failure),
        }
    }
}

/// A TLS connector of the operating system.
#[verifier::external_type_specification]
#[verifier::external_body]
pub struct ExTlsConnector(native_tls::TlsConnector);

/// A certificate with its private key for TLS.
#[verifier::external_type_specification]
#[verifier::external_body]
pub struct ExIdentity(native_tls::Identity);

/// A protocol of the operating system's TLS.
#[verifier::external_type_specification]
#[verifier::external_body]
pub struct ExTlsProtocol(native_tls::Protocol);

/// A version of TLS.
#[derive(Debug, Clone, Copy, PartialEq, Eq, Structural)]
pub enum TlsVersion {
    Tls10,
    Tls11,
    Tls12,
}

/// The version that a variant of `native_tls::Protocol` stands for.
pub uninterp spec fn protocol_version(p: native_tls::Protocol) -> TlsVersion;

/// The variants of `native_tls::Protocol`.
#[verifier::external_body]
fn protocol(version: TlsVersion) -> (p: native_tls::Protocol)
    ensures
        protocol_version(p) == version,
{
    match version {
        TlsVersion::Tls10 => native_tls::Protocol::Tlsv10,
        TlsVersion::Tls11 => native_tls::Protocol::Tlsv11,
        TlsVersion::Tls12 => native_tls::Protocol::Tlsv12,
    }
}

/// The rules of a TLS connection to a paired phone.
pub struct TlsRules {
    /// The oldest version that is spoken.
    pub oldest: TlsVersion,
    /// The newest version that is spoken.
    pub newest: TlsVersion,
    /// The server's name is sent.
    pub send_name: bool,
    /// Certificates for other names are accepted.
    pub accept_other_names: bool,
    /// Certificates without a public authority are accepted.
    pub accept_unknown: bool,
}

/// The rules that a connector follows.
pub uninterp spec fn connector_rules(c: native_tls::TlsConnector) -> TlsRules;

/// The certificate and private key of an identity.
pub uninterp spec fn identity_parts(i: native_tls::Identity) -> (Seq<u8>, Seq<u8>);

/// `native_tls::Identity::from_pkcs8`: the identity with this certificate and key.
#[verifier::external_body]
fn tls_identity(certificate: &[u8], key: &[u8]) -> (identity: Result<
    native_tls::Identity,
    native_tls::Error,
>)
    ensures
        identity matches Ok(identity) ==> identity_parts(identity) == (certificate@, key@),
{
    native_tls::Identity::from_pkcs8(certificate, key)
}

/// `native_tls::TlsConnector::builder`, its settings and its `build`: a connector
/// that shows the identity and follows the rules.
#[verifier::external_body]
fn tls_connector(
    identity: native_tls::Identity,
    rules: TlsRules,
    oldest: native_tls::Protocol,
    newest: native_tls::Protocol,
) -> (connector: Result<native_tls::TlsConnector, native_tls::Error>)
    requires
        protocol_version(oldest) == rules.oldest,
        protocol_version(newest) == rules.newest,
    ensures
        connector matches Ok(connector) ==> connector_rules(connector) == rules
            && connector_identity(connector) == identity_parts(identity),
{
    let mut builder = native_tls::TlsConnector::builder();
    builder.identity(identity);
    builder.min_protocol_version(Some(oldest));
    builder.max_protocol_version(Some(newest));
    builder.use_sni(rules.send_name);
    builder.danger_accept_invalid_hostnames(rules.accept_other_names);
    builder.danger_accept_invalid_certs(rules.accept_unknown);
    builder.build()
}

/// The certificate and private key that a connector shows.
pub uninterp spec fn connector_identity(c: native_tls::TlsConnector) -> (Seq<u8>, Seq<u8>);

impl PairRecord {
    /// The TLS connector for the paired phone. Its certificate has no name and no
    /// public authority, so the connector accepts any; whoever connects must check
    /// the certificate against this record before anything is sent.
    pub fn native_tls_connector(&self) -> (connector: Result<native_tls::TlsConnector, Failure>)
        ensures
            match (
                data_in(lookup(self.0.pairs(), "HostCertificate"@)),
                data_in(lookup(self.0.pairs(), "HostPrivateKey"@)),
            ) {
                (None, _) => connector matches Err(failure) && failure.says(
                    "Pair record missing "@ + "HostCertificate"@,
                ),
                (_, None) => connector matches Err(failure) && failure.says(
                    "Pair record missing "@ + "HostPrivateKey"@,
                ),
                (Some(certificate), Some(key)) => match connector {
                    Ok(connector) => connector_identity(connector) == (certificate, key)
                        && connector_rules(connector) == (TlsRules {
                        oldest: TlsVersion::Tls12,
                        newest: TlsVersion::Tls12,
                        send_name: false,
                        accept_other_names: true,
                        accept_unknown: true,
                    }),
                    Err(failure) => failure matches Failure::Under(context, inner) && *inner is Tls
                        && (context@ == "Load paired host TLS identity"@ || context@
                        == "Configure Windows TLS for paired iPhone"@),
                },
            },
    {
        let certificate: &Vec<u8> = match self.data("HostCertificate") {
            Ok(certificate) => certificate,
            Err(failure) => return Err(failure),
        };
        let key: &Vec<u8> = match self.data("HostPrivateKey") {
            Ok(key) => key,
            Err(failure) => return Err(failure),
        };
        let identity: native_tls::Identity = match tls_identity(
            certificate.as_slice(),
            key.as_slice(),
        ) {
            Ok(identity) => identity,
            Err(error) => return Err(
                Failure::Tls(error).context("Load paired host TLS identity"),
            ),
        };
        let rules = TlsRules {
            oldest: TlsVersion::Tls12,
            newest: TlsVersion::Tls12,
            send_name: false,
            accept_other_names: true,
            accept_unknown: true,
        };
        let oldest: native_tls::Protocol = protocol(rules.oldest);
        let newest: native_tls::Protocol = protocol(rules.newest);
        match tls_connector(identity, rules, oldest, newest) {
            Ok(connector) => Ok(connector),
            Err(error) => Err(
                Failure::Tls(error).context("Configure Windows TLS for paired iPhone"),
            ),
        }
    }
}

/// The phone never gets to see the private key of the host, or any field that is
/// not public.
pub proof fn private_fields_are_not_sent(pairs: Seq<(Seq<char>, Tree)>, key: Seq<char>)
    requires
        forall|i: int| 0 <= i < 5 ==> (#[trigger] PUBLIC_FIELDS@[i])@ != key,
    ensures
        lookup(collected(public_items(pairs, 5)), key) is None,
{
    collected_lookup(public_items(pairs, 5), key);
    no_public_item(pairs, key, 5);
}

proof fn no_public_item(pairs: Seq<(Seq<char>, Tree)>, key: Seq<char>, n: int)
    requires
        0 <= n <= 5,
        forall|i: int| 0 <= i < 5 ==> (#[trigger] PUBLIC_FIELDS@[i])@ != key,
    ensures
        last_under(public_items(pairs, n), key) is None,
    decreases n,
{
    if n > 0 {
        no_public_item(pairs, key, n - 1);
        assert(public_items(pairs, n).drop_last() =~= public_items(pairs, n - 1));
    }
}

/// The private key of the host is not a public field.
pub proof fn host_key_is_private(pairs: Seq<(Seq<char>, Tree)>)
    ensures
        lookup(collected(public_items(pairs, 5)), "HostPrivateKey"@) is None,
{
    reveal_strlit("HostPrivateKey");
    reveal_strlit("DeviceCertificate");
    reveal_strlit("HostCertificate");
    reveal_strlit("RootCertificate");
    reveal_strlit("HostID");
    reveal_strlit("SystemBUID");
    assert("HostPrivateKey"@.len() == 14);
    assert forall|i: int| 0 <= i < 5 implies (#[trigger] PUBLIC_FIELDS@[i])@ != "HostPrivateKey"@ by {
        assert(PUBLIC_FIELDS@[i]@.len() != 14);
    }
    private_fields_are_not_sent(pairs, "HostPrivateKey"@);
}

/// The entries of a record made of certificates and keys in PEM form.
pub open spec fn record_items(
    device: Seq<char>,
    host: Seq<char>,
    root: Seq<char>,
    key: Seq<char>,
    id: Seq<char>,
    buid: Seq<char>,
) -> Seq<(Seq<char>, Tree)> {
    seq![
        ("DeviceCertificate"@, Tree::Data(encode_utf8(with_lf(device)))),
        ("HostCertificate"@, Tree::Data(encode_utf8(with_lf(host)))),
        ("RootCertificate"@, Tree::Data(encode_utf8(with_lf(root)))),
        ("HostPrivateKey"@, Tree::Data(encode_utf8(with_lf(key)))),
        ("HostID"@, Tree::Text(uppered(id))),
        ("SystemBUID"@, Tree::Text(buid)),
        ("PairingFormatVersion"@, Tree::Integer(FORMAT_VERSION)),
    ]
}

fn lf_data(pem: &str) -> (value: Plist)
    ensures
        value.tree() == Tree::Data(encode_utf8(with_lf(pem@))),
{
    Plist::Data(copy_bytes(lf_text(pem).as_str().as_bytes()))
}

/// The record made of certificates and keys in PEM form. Its lines end in a line
/// feed alone: a phone can accept a pairing with other line ends and then refuse
/// the TLS session.
pub fn assemble(device: &str, host: &str, root: &str, key: &str, id: &str, buid: &str) -> (record:
    PairRecord)
    ensures
        record.0.pairs() == collected(record_items(device@, host@, root@, key@, id@, buid@)),
{
    let fields: Vec<(&str, Plist)> = vec![
        ("DeviceCertificate", lf_data(device)),
        ("HostCertificate", lf_data(host)),
        ("RootCertificate", lf_data(root)),
        ("HostPrivateKey", lf_data(key)),
        ("HostID", string(upper_text(id).as_str())),
        ("SystemBUID", string(buid)),
        ("PairingFormatVersion", Plist::Integer(FORMAT_VERSION)),
    ];
    assert(crate::value::item_pairs(fields@) =~= record_items(
        device@,
        host@,
        root@,
        key@,
        id@,
        buid@,
    ));
    PairRecord(crate::value::dict_from(fields))
}

/// What an assembled record says of the device and of its own format.
pub proof fn assembled_fields(
    device: Seq<char>,
    host: Seq<char>,
    root: Seq<char>,
    key: Seq<char>,
    id: Seq<char>,
    buid: Seq<char>,
)
    ensures
        ({
            let pairs = collected(record_items(device, host, root, key, id, buid));
            &&& number_in(lookup(pairs, "PairingFormatVersion"@)) == Some(FORMAT_VERSION)
            &&& data_in(lookup(pairs, "DeviceCertificate"@)) == Some(encode_utf8(with_lf(device)))
            &&& data_in(lookup(pairs, "HostPrivateKey"@)) == Some(encode_utf8(with_lf(key)))
            &&& text_in(lookup(pairs, "HostID"@)) == Some(uppered(id))
            &&& text_in(lookup(pairs, "SystemBUID"@)) == Some(buid)
        }),
{
    let items = record_items(device, host, root, key, id, buid);
    reveal_strlit("DeviceCertificate");
    reveal_strlit("HostCertificate");
    reveal_strlit("RootCertificate");
    reveal_strlit("HostPrivateKey");
    reveal_strlit("HostID");
    reveal_strlit("SystemBUID");
    reveal_strlit("PairingFormatVersion");
    assert("DeviceCertificate"@.len() == 17);
    assert("HostCertificate"@.len() == 15);
    assert("RootCertificate"@.len() == 15);
    assert("HostPrivateKey"@.len() == 14);
    assert("HostID"@.len() == 6);
    assert("SystemBUID"@.len() == 10);
    assert("PairingFormatVersion"@.len() == 20);
    collected_lookup(items, "PairingFormatVersion"@);
    collected_lookup(items, "DeviceCertificate"@);
    collected_lookup(items, "HostPrivateKey"@);
    collected_lookup(items, "HostID"@);
    collected_lookup(items, "SystemBUID"@);
    let a = items.drop_last();
    let b = a.drop_last();
    let c = b.drop_last();
    let d = c.drop_last();
    let e = d.drop_last();
    let f = e.drop_last();
    assert(a.last() == items[5]);
    assert(b.last() == items[4]);
    assert(c.last() == items[3]);
    assert(d.last() == items[2]);
    assert(e.last() == items[1]);
    assert(f.last() == items[0]);
    assert(last_under(a, "SystemBUID"@) == Some(items[5].1));
    assert(last_under(items, "SystemBUID"@) == Some(items[5].1));
    assert(last_under(b, "HostID"@) == Some(items[4].1));
    assert(last_under(a, "HostID"@) == last_under(b, "HostID"@));
    assert(last_under(items, "HostID"@) == Some(items[4].1));
    let private = "HostPrivateKey"@;
    assert(last_under(c, private) == Some(items[3].1));
    assert(last_under(a, private) == last_under(b, private));
    assert(last_under(b, private) == last_under(c, private));
    assert(last_under(items, private) == Some(items[3].1));
    let own = "DeviceCertificate"@;
    assert(last_under(f, own) == Some(items[0].1));
    assert(last_under(a, own) == last_under(b, own));
    assert(last_under(b, own) == last_under(c, own));
    assert(last_under(c, own) == last_under(d, own));
    assert(last_under(d, own) == last_under(e, own));
    assert(last_under(e, own) == last_under(f, own));
    assert(last_under(items, own) == Some(items[0].1));
}

/// The record was assembled from these texts.
pub open spec fn is_assembled(
    pairs: Seq<(Seq<char>, Tree)>,
    issued: IssuedView,
    id: Seq<char>,
    buid: Seq<char>,
) -> bool {
    exists|device: Seq<char>, host: Seq<char>, root: Seq<char>, key: Seq<char>|
        pairs == collected(#[trigger] record_items(device, host, root, key, id, buid)) && issued
            == (IssuedView {
            device: with_lf(device),
            host: with_lf(host),
            root: with_lf(root),
            host_key: with_lf(key),
        })
}

/// What making a record from these keys comes to, for the device with this key: a
/// record with their certificates that matches the device, or a failure.
pub open spec fn is_made(
    public_key: Seq<u8>,
    buid: Seq<char>,
    keys: KeysView,
    record: Result<PairRecord, Failure>,
) -> bool {
    match pem_key(public_key) {
        None => record matches Err(failure) && is_key_failure(public_key, failure),
        Some(parts) => match spki_der(parts) {
            None => record matches Err(failure) && failure is Spki,
            Some(der) => match issued_for(der, keys) {
                None => record matches Err(failure) && refuses(der, keys, failure),
                Some(issued) => {
                    &&& record matches Ok(record)
                    &&& is_assembled(record.0.pairs(), issued, keys.id, buid)
                    &&& is_match(record.0.pairs(), public_key, Ok(true))
                },
            },
        },
    }
}

/// A record for the device with this key, made from the given keys of this computer.
/// The device matches it.
pub fn generate_from(public_key: &[u8], buid: &str, keys: &HostKeys) -> (record: Result<
    PairRecord,
    Failure,
>)
    ensures
        is_made(public_key@, buid@, keys@, record),
{
    let key: rsa::RsaPublicKey = match parse_public_key(public_key) {
        Ok(key) => key,
        Err(failure) => return Err(failure),
    };
    let der: Vec<u8> = match key_to_spki_der(&key) {
        Ok(der) => der,
        Err(error) => return Err(Failure::Spki(error)),
    };
    match issue(der.as_slice(), keys) {
        Ok(issued) => {
            let record: PairRecord = assemble(
                issued.device.as_str(),
                issued.host.as_str(),
                issued.root.as_str(),
                issued.host_key.as_str(),
                keys.id.as_str(),
                buid,
            );
            proof {
                let items = record_items(
                    issued.device@,
                    issued.host@,
                    issued.root@,
                    issued.host_key@,
                    keys.id@,
                    buid@,
                );
                assert(record.0.pairs() == collected(items));
                assembled_fields(
                    issued.device@,
                    issued.host@,
                    issued.root@,
                    issued.host_key@,
                    keys.id@,
                    buid@,
                );
                assert(was_read(rsa_parts(key)));
            }
            Ok(record)
        },
        Err(failure) => Err(failure),
    }
}

/// What making a record with new keys comes to, whichever keys chance gives.
pub open spec fn is_generated(
    public_key: Seq<u8>,
    buid: Seq<char>,
    record: Result<PairRecord, Failure>,
) -> bool {
    match pem_key(public_key) {
        None => record matches Err(failure) && is_key_failure(public_key, failure),
        Some(_) => {
            ||| record matches Err(failure) && (failure is Rsa || failure is Pkcs8)
            ||| exists|keys: KeysView| #[trigger]
                is_made(public_key, buid, keys, record) && is_full_key(keys.root) && is_full_key(
                    keys.host,
                ) && is_random_uuid(keys.id) && lowered(keys.id) == keys.id
        },
    }
}

/// A new record for the device with this key, which the device matches. Its keys and
/// its identifier are left to chance.
pub fn generate(public_key: &[u8], buid: &str) -> (record: Result<PairRecord, Failure>)
    ensures
        is_generated(public_key@, buid@, record),
{
    match parse_public_key(public_key) {
        Ok(_) => {},
        Err(failure) => return Err(failure),
    }
    match HostKeys::fresh() {
        Ok(keys) => {
            let record: Result<PairRecord, Failure> = generate_from(public_key, buid, &keys);
            assert(is_made(public_key@, buid@, keys@, record));
            record
        },
        Err(failure) => Err(failure),
    }
}

/// Where the records of this user are kept.
pub struct PairStore {
    /// The directory.
    pub directory: String,
}

impl PairStore {
    /// The store in a directory.
    pub fn at(directory: String) -> (store: PairStore)
        ensures
            store.directory == directory,
    {
        PairStore { directory }
    }

    /// The name of the file that holds the record of a device.
    pub fn path(&self, udid: &str) -> (name: Result<String, Failure>)
        ensures
            match file_name(udid@) {
                Some(expected) => name matches Ok(name) && name@ == expected,
                None => name matches Err(failure) && failure.says(
                    "Invalid device identifier format"@,
                ),
            },
    {
        match canonical_udid(udid) {
            Ok(id) => Ok(id.concat(".dpapi")),
            Err(failure) => Err(failure),
        }
    }

    /// Whether a stored file can be a record.
    pub fn check_size(&self, stored_file: &[u8]) -> (checked: Result<(), Failure>)
        ensures
            match checked {
                Ok(()) => stored_file@.len() < RECORD_LIMIT,
                Err(failure) => stored_file@.len() >= RECORD_LIMIT && failure.says(
                    "Pair record is too large"@,
                ),
            },
    {
        if stored_file.len() < RECORD_LIMIT {
            Ok(())
        } else {
            Err(Failure::said("Pair record is too large"))
        }
    }

    /// The record in a decrypted file, if there is a file.
    pub fn load(&self, plaintext: Option<&[u8]>) -> (record: Result<Option<PairRecord>, Failure>)
        ensures
            match plaintext {
                None => record matches Ok(None),
                Some(bytes) => match plist_parsed(bytes@) {
                    None => record matches Err(failure) && no_list(failure, bytes@),
                    Some(tree) => match dict_in(Some(tree)) {
                        Some(pairs) => record matches Ok(Some(record)) && record.0.pairs() == pairs,
                        None => record matches Err(failure) && failure.says(
                            "Invalid app pairing record"@,
                        ),
                    },
                },
            },
    {
        let bytes: &[u8] = match plaintext {
            Some(bytes) => bytes,
            None => return Ok(None),
        };
        match parse(bytes) {
            Err(failure) => Err(failure),
            Ok(value) => match value.into_dictionary() {
                Some(d) => Ok(Some(PairRecord(d))),
                None => Err(Failure::said("Invalid app pairing record")),
            },
        }
    }

    /// The contents of the file for a record, before encryption. Loading them gives
    /// the record back, unless a date in it has a fraction of a second that a binary
    /// number does not hold, and so may be rounded.
    pub fn save(&self, record: &PairRecord) -> (plaintext: Vec<u8>)
        ensures
            plaintext@ == plist_binary(Tree::Dict(record.0.pairs())),
            comes_back(Tree::Dict(record.0.pairs())) ==> plist_parsed(plaintext@) == Some(
                Tree::Dict(record.0.pairs()),
            ),
    {
        to_binary(&Plist::Dict(record.0.clone()))
    }

    /// The identifier of this computer: the stored one where it is a UUID, and
    /// otherwise a new one, which is to be stored.
    pub fn buid(&self, stored_text: Option<&str>) -> (id: (String, bool))
        ensures
            match kept_identifier(stored_view(stored_text)) {
                Some(kept) => id.0@ == kept && !id.1,
                None => id.1 && is_new_identifier(id.0@),
            },
    {
        if let Some(text) = stored_text {
            let trimmed_text: String = trim_text(text);
            if parses_as_uuid(trimmed_text.as_str()) {
                return (trimmed_text, false);
            }
        }
        let drawn: String = random_uuid();
        proof {
            capitals_keep_it_a_uuid(drawn@);
        }
        (upper_text(drawn.as_str()), true)
    }
}

/// The name of the file that holds the record of a device, if that is one.
pub open spec fn file_name(udid: Seq<char>) -> Option<Seq<char>> {
    match canonical(udid) {
        Some(id) => Some(id + ".dpapi"@),
        None => None,
    }
}

/// What is kept for a device among files, each under its name.
pub open spec fn kept_for(files: Map<Seq<char>, Seq<u8>>, udid: Seq<char>) -> Option<Seq<u8>> {
    match file_name(udid) {
        Some(name) => if files.dom().contains(name) {
            Some(files[name])
        } else {
            None
        },
        None => None,
    }
}

/// The files after something is kept for a device.
pub open spec fn with_kept(
    files: Map<Seq<char>, Seq<u8>>,
    udid: Seq<char>,
    contents: Seq<u8>,
) -> Map<Seq<char>, Seq<u8>> {
    match file_name(udid) {
        Some(name) => files.insert(name, contents),
        None => files,
    }
}

/// The record that was saved last for a device is the one that is loaded for it,
/// whatever was kept before, and however its identifier is written then.
pub proof fn the_last_saved_record_is_loaded(
    store: PairStore,
    files: Map<Seq<char>, Seq<u8>>,
    udid: Seq<char>,
    asked: Seq<char>,
    record: PairRecord,
    saved: Vec<u8>,
    read: &[u8],
    loaded: Result<Option<PairRecord>, Failure>,
)
    requires
        canonical(udid) is Some,
        canonical(asked) == canonical(udid),
        comes_back(Tree::Dict(record.0.pairs())),
        call_ensures(PairStore::save, (&store, &record), saved),
        kept_for(with_kept(files, udid, saved@), asked) == Some(read@),
        call_ensures(PairStore::load, (&store, Some(read)), loaded),
    ensures
        read@ == saved@,
        loaded matches Ok(Some(back)) && back.0.pairs() == record.0.pairs(),
{
}

/// For a device for which nothing was saved, nothing is loaded: what is kept for other
/// devices does not matter.
pub proof fn nothing_saved_nothing_loaded(
    store: PairStore,
    files: Map<Seq<char>, Seq<u8>>,
    other: Seq<char>,
    contents: Seq<u8>,
    asked: Seq<char>,
    loaded: Result<Option<PairRecord>, Failure>,
)
    requires
        kept_for(files, asked) is None,
        canonical(asked) != canonical(other),
        call_ensures(PairStore::load, (&store, None::<&[u8]>), loaded),
    ensures
        kept_for(with_kept(files, other, contents), asked) is None,
        loaded matches Ok(None),
{
    if let (Some(a), Some(b)) = (canonical(asked), canonical(other)) {
        let end = ".dpapi"@;
        if a + end == b + end {
            assert((a + end).take(a.len() as int) =~= a);
            assert((b + end).take(b.len() as int) =~= b);
            assert((a + end).len() == a.len() + end.len());
            assert((b + end).len() == b.len() + end.len());
        }
    }
}

/// What is stored, if anything is.
pub open spec fn stored_view(stored_text: Option<&str>) -> Option<Seq<char>> {
    match stored_text {
        Some(text) => Some(text@),
        None => None,
    }
}

/// The identifier that is kept of what is stored: the text without the white space
/// around it, where that is a UUID.
pub open spec fn kept_identifier(stored_text: Option<Seq<char>>) -> Option<Seq<char>> {
    match stored_text {
        Some(text) => if is_uuid(trimmed(text)) {
            Some(trimmed(text))
        } else {
            None
        },
        None => None,
    }
}

/// The text can be a new identifier of this computer: a random UUID in capitals.
pub open spec fn is_new_identifier(text: Seq<char>) -> bool {
    is_random_uuid(text) && uppered(text) == text
}

/// A random UUID is one in capitals, too.
proof fn capitals_keep_it_a_uuid(text: Seq<char>)
    requires
        is_random_uuid(text),
    ensures
        is_new_identifier(uppered(text)),
{
    let large = uppered(text);
    assert forall|i: int| 0 <= i < 36 implies if is_hyphen_place(i) {
        #[trigger] large[i] == '-'
    } else {
        is_hex_digit(large[i])
    } by {
        assert(large[i] == upper(text[i]));
    }
    assert(uppered(large) =~= large);
    assert(large[14] == upper(text[14]));
    assert(large[19] == upper(text[19]));
}

/// A new identifier of this computer that was stored is kept: asked again, the
/// computer has the same one.
pub proof fn a_new_identifier_is_kept(id: Seq<char>)
    requires
        is_new_identifier(id),
    ensures
        kept_identifier(Some(id)) == Some(id),
{
    assert(!is_hyphen_place(0) && !is_hyphen_place(35));
    assert(is_hex_digit(id[0]) && is_hex_digit(id[35]));
    assert(!is_space(id[0]) && !is_space(id[35]));
    assert(trimmed_start(id) == id);
    assert(trimmed_end(id) == id);
}

proof fn record_names_differ()
    ensures
        "DeviceCertificate"@.len() == 17,
        "HostCertificate"@.len() == 15,
        "RootCertificate"@.len() == 15,
        "HostPrivateKey"@.len() == 14,
        "HostID"@.len() == 6,
        "SystemBUID"@.len() == 10,
        "PairingFormatVersion"@.len() == 20,
        "HostCertificate"@ != "RootCertificate"@,
{
    reveal_strlit("DeviceCertificate");
    reveal_strlit("HostCertificate");
    reveal_strlit("RootCertificate");
    reveal_strlit("HostPrivateKey");
    reveal_strlit("HostID");
    reveal_strlit("SystemBUID");
    reveal_strlit("PairingFormatVersion");
    assert("HostCertificate"@[0] != "RootCertificate"@[0]);
}

/// What the phone gets to see of a record is five of its fields, as they are; without
/// one of them there is nothing to show.
pub proof fn the_public_fields_are_shown(record: PairRecord, shown: Result<Plist, Failure>)
    requires
        call_ensures(PairRecord::public_record, (&record,), shown),
    ensures
        ({
            let held = record.0.pairs();
            &&& shown is Ok <==> lookup(held, "DeviceCertificate"@) is Some && lookup(
                held,
                "HostCertificate"@,
            ) is Some && lookup(held, "RootCertificate"@) is Some && lookup(held, "HostID"@) is Some
                && lookup(held, "SystemBUID"@) is Some
            &&& shown matches Ok(shown) ==> (shown.tree() matches Tree::Dict(seen) && lookup(
                seen,
                "DeviceCertificate"@,
            ) == lookup(held, "DeviceCertificate"@) && lookup(seen, "HostCertificate"@) == lookup(
                held,
                "HostCertificate"@,
            ) && lookup(seen, "RootCertificate"@) == lookup(held, "RootCertificate"@) && lookup(
                seen,
                "HostID"@,
            ) == lookup(held, "HostID"@) && lookup(seen, "SystemBUID"@) == lookup(
                held,
                "SystemBUID"@,
            ))
        }),
{
    let held = record.0.pairs();
    record_names_differ();
    reveal_with_fuel(public_items, 6);
    assert(PUBLIC_FIELDS@[0]@ == "DeviceCertificate"@);
    assert(PUBLIC_FIELDS@[1]@ == "HostCertificate"@);
    assert(PUBLIC_FIELDS@[2]@ == "RootCertificate"@);
    assert(PUBLIC_FIELDS@[3]@ == "HostID"@);
    assert(PUBLIC_FIELDS@[4]@ == "SystemBUID"@);
    let items = public_items(held, 5);
    assert(items.len() == 5);
    assert(items[0].0 == "DeviceCertificate"@);
    assert(items[1].0 == "HostCertificate"@);
    assert(items[2].0 == "RootCertificate"@);
    assert(items[3].0 == "HostID"@);
    assert(items[4].0 == "SystemBUID"@);
    a_dictionary_holds_its_items(items, "DeviceCertificate"@);
    a_dictionary_holds_its_items(items, "HostCertificate"@);
    a_dictionary_holds_its_items(items, "RootCertificate"@);
    a_dictionary_holds_its_items(items, "HostID"@);
    a_dictionary_holds_its_items(items, "SystemBUID"@);
}

/// The certificate in the record carries this key.
pub open spec fn holds_key(pairs: Seq<(Seq<char>, Tree)>, key: (nat, nat)) -> bool {
    &&& lookup(pairs, "DeviceCertificate"@) matches Some(Tree::Data(pem))
    &&& pem_certificate(pem) matches Some(Some(der))
    &&& certificate_key(der) matches Some(info)
    &&& spki_der_key(info) == Some(key)
}

/// A record matches a device exactly where it is of the third format and its device
/// certificate carries the very key that the device supplies. A record of any other
/// format matches none.
pub proof fn only_the_key_of_the_device_matches(
    record: PairRecord,
    public_key: &[u8],
    matched: Result<bool, Failure>,
)
    requires
        call_ensures(PairRecord::matches_device, (&record, public_key), matched),
    ensures
        (matched matches Ok(true)) <==> lookup(record.0.pairs(), "PairingFormatVersion"@) == Some(
            Tree::Integer(3),
        ) && (pem_key(public_key@) matches Some(key) && holds_key(record.0.pairs(), key)),
        lookup(record.0.pairs(), "PairingFormatVersion"@) != Some(Tree::Integer(3)) ==> (
        matched matches Ok(false)),
{
}

/// The certificate that a phone shows is accepted exactly where it is the one in the
/// record, byte for byte.
pub proof fn only_the_recorded_certificate_is_accepted(
    record: PairRecord,
    der: &[u8],
    checked: Result<(), Failure>,
    expected: &[u8],
    same: Result<(), Failure>,
)
    requires
        call_ensures(PairRecord::verify_peer_certificate, (&record, der), checked),
        call_ensures(pinned, (expected, der), same),
    ensures
        checked is Ok <==> (lookup(record.0.pairs(), "DeviceCertificate"@) matches Some(
            Tree::Data(pem),
        ) && pem_certificate(pem) == Some(Some(der@))),
        same is Ok <==> expected@ == der@,
{
}

/// The connection to a phone shows the certificate and the key that the record holds
/// for this computer, and speaks one version of the protocol only.
pub proof fn connections_show_the_recorded_identity(
    record: PairRecord,
    connector: Result<native_tls::TlsConnector, Failure>,
)
    requires
        call_ensures(PairRecord::native_tls_connector, (&record,), connector),
    ensures
        connector matches Ok(connector) ==> lookup(record.0.pairs(), "HostCertificate"@) == Some(
            Tree::Data(connector_identity(connector).0),
        ) && lookup(record.0.pairs(), "HostPrivateKey"@) == Some(
            Tree::Data(connector_identity(connector).1),
        ) && connector_rules(connector).oldest == TlsVersion::Tls12 && connector_rules(
            connector,
        ).newest == TlsVersion::Tls12 && !connector_rules(connector).send_name && connector_rules(
            connector,
        ).accept_other_names && connector_rules(connector).accept_unknown,
{
}

/// An assembled record holds each text under its own name, with line feeds alone at the
/// line ends, the identifier of the pairing in capitals, that of the computer as it is,
/// and the third format.
pub proof fn an_assembled_record_holds_its_parts(
    device: &str,
    host: &str,
    root: &str,
    key: &str,
    id: &str,
    buid: &str,
    record: PairRecord,
)
    requires
        call_ensures(assemble, (device, host, root, key, id, buid), record),
    ensures
        ({
            let held = record.0.pairs();
            &&& lookup(held, "DeviceCertificate"@) == Some(
                Tree::Data(encode_utf8(with_lf(device@))),
            )
            &&& lookup(held, "HostCertificate"@) == Some(Tree::Data(encode_utf8(with_lf(host@))))
            &&& lookup(held, "RootCertificate"@) == Some(Tree::Data(encode_utf8(with_lf(root@))))
            &&& lookup(held, "HostPrivateKey"@) == Some(Tree::Data(encode_utf8(with_lf(key@))))
            &&& lookup(held, "HostID"@) == Some(Tree::Text(uppered(id@)))
            &&& lookup(held, "SystemBUID"@) == Some(Tree::Text(buid@))
            &&& lookup(held, "PairingFormatVersion"@) == Some(Tree::Integer(3))
        }),
{
    record_holds_its_parts(device@, host@, root@, key@, id@, buid@);
}

proof fn record_holds_its_parts(
    device: Seq<char>,
    host: Seq<char>,
    root: Seq<char>,
    key: Seq<char>,
    id: Seq<char>,
    buid: Seq<char>,
)
    ensures
        ({
            let held = collected(record_items(device, host, root, key, id, buid));
            &&& lookup(held, "DeviceCertificate"@) == Some(
                Tree::Data(encode_utf8(with_lf(device))),
            )
            &&& lookup(held, "HostCertificate"@) == Some(Tree::Data(encode_utf8(with_lf(host))))
            &&& lookup(held, "RootCertificate"@) == Some(Tree::Data(encode_utf8(with_lf(root))))
            &&& lookup(held, "HostPrivateKey"@) == Some(Tree::Data(encode_utf8(with_lf(key))))
            &&& lookup(held, "HostID"@) == Some(Tree::Text(uppered(id)))
            &&& lookup(held, "SystemBUID"@) == Some(Tree::Text(buid))
            &&& lookup(held, "PairingFormatVersion"@) == Some(Tree::Integer(3))
        }),
{
    let items = record_items(device, host, root, key, id, buid);
    record_names_differ();
    assert(items[0].0 == "DeviceCertificate"@);
    assert(items[1].0 == "HostCertificate"@);
    assert(items[2].0 == "RootCertificate"@);
    assert(items[3].0 == "HostPrivateKey"@);
    assert(items[4].0 == "HostID"@);
    assert(items[5].0 == "SystemBUID"@);
    assert(items[6].0 == "PairingFormatVersion"@);
    a_dictionary_holds_its_items(items, "DeviceCertificate"@);
    a_dictionary_holds_its_items(items, "HostCertificate"@);
    a_dictionary_holds_its_items(items, "RootCertificate"@);
    a_dictionary_holds_its_items(items, "HostPrivateKey"@);
    a_dictionary_holds_its_items(items, "HostID"@);
    a_dictionary_holds_its_items(items, "SystemBUID"@);
    a_dictionary_holds_its_items(items, "PairingFormatVersion"@);
}

/// A record that was made for a device holds the certificate for the key of that
/// device, the certificates and the private key of this computer, and the identifiers
/// that it was made with.
pub proof fn a_made_record_is_of_the_device_and_the_keys(
    public_key: &[u8],
    buid: &str,
    keys: HostKeys,
    record: Result<PairRecord, Failure>,
)
    requires
        call_ensures(generate_from, (public_key, buid, &keys), record),
    ensures
        record matches Ok(record) ==> ({
            let held = record.0.pairs();
            &&& pem_key(public_key@) matches Some(parts) && holds_key(held, parts)
            &&& lookup(held, "PairingFormatVersion"@) == Some(Tree::Integer(3))
            &&& lookup(held, "HostID"@) == Some(Tree::Text(uppered(keys.id@)))
            &&& lookup(held, "SystemBUID"@) == Some(Tree::Text(buid@))
            &&& spki_der(pem_key(public_key@).unwrap()) matches Some(der) && issued_for(
                der,
                keys@,
            ) matches Some(issued) && lookup(held, "DeviceCertificate"@) == Some(
                Tree::Data(encode_utf8(issued.device)),
            ) && lookup(held, "HostCertificate"@) == Some(Tree::Data(encode_utf8(issued.host)))
                && lookup(held, "RootCertificate"@) == Some(Tree::Data(encode_utf8(issued.root)))
                && lookup(held, "HostPrivateKey"@) == Some(Tree::Data(encode_utf8(issued.host_key)))
        }),
        record is Ok <==> (pem_key(public_key@) matches Some(parts) && spki_der(parts) matches Some(
            der,
        ) && issued_for(der, keys@) is Some),
{
    if let Some(parts) = pem_key(public_key@) {
        if let Some(der) = spki_der(parts) {
            if let Some(issued) = issued_for(der, keys@) {
                if let Ok(made) = record {
                    let (device, host, root, key) = choose|
                        device: Seq<char>,
                        host: Seq<char>,
                        root: Seq<char>,
                        key: Seq<char>,
                    |
                        made.0.pairs() == collected(
                            #[trigger] record_items(device, host, root, key, keys@.id, buid@),
                        ) && issued == (IssuedView {
                            device: with_lf(device),
                            host: with_lf(host),
                            root: with_lf(root),
                            host_key: with_lf(key),
                        });
                    record_holds_its_parts(device, host, root, key, keys@.id, buid@);
                }
            }
        }
    }
}

/// Two identifiers have one file exactly where they name one device, and what names no
/// device has none.
pub proof fn each_device_has_its_file(
    store: PairStore,
    a: &str,
    b: &str,
    first: Result<String, Failure>,
    second: Result<String, Failure>,
)
    requires
        call_ensures(PairStore::path, (&store, a), first),
        call_ensures(PairStore::path, (&store, b), second),
    ensures
        first is Ok <==> canonical(a@) is Some,
        first matches Ok(first) ==> first@ == canonical(a@).unwrap() + ".dpapi"@,
        first is Ok && second is Ok ==> (first->Ok_0@ == second->Ok_0@ <==> canonical(a@)
            == canonical(b@)),
{
    if first is Ok && second is Ok {
        let x = canonical(a@).unwrap();
        let y = canonical(b@).unwrap();
        if x + ".dpapi"@ == y + ".dpapi"@ {
            assert((x + ".dpapi"@).len() == (y + ".dpapi"@).len());
            assert((x + ".dpapi"@).take(x.len() as int) =~= x);
            assert((y + ".dpapi"@).take(y.len() as int) =~= y);
        }
    }
}

/// A stored file below 131072 bytes can be a record; a stored identifier is kept where
/// it is a UUID, without the white space around it, and otherwise a new one is made,
/// which is to be stored.
pub proof fn stored_things_are_checked(
    store: PairStore,
    stored_file: &[u8],
    checked: Result<(), Failure>,
    stored_text: Option<&str>,
    id: (String, bool),
)
    requires
        call_ensures(PairStore::check_size, (&store, stored_file), checked),
        call_ensures(PairStore::buid, (&store, stored_text), id),
    ensures
        checked is Ok <==> stored_file@.len() < 131072,
        id.1 <==> !(stored_text matches Some(text) && is_uuid(trimmed(text@))),
        !id.1 ==> id.0@ == trimmed(stored_text.unwrap()@),
        id.1 ==> is_uuid(id.0@) && uppered(id.0@) == id.0@,
{
}

/// The fields of a record are found by their names, where they are of the right kind.
pub proof fn fields_are_found_by_name(
    record: PairRecord,
    k: &str,
    bytes: Result<&Vec<u8>, Failure>,
    text: Result<&String, Failure>,
)
    requires
        call_ensures(PairRecord::data, (&record, k), bytes),
        call_ensures(PairRecord::text, (&record, k), text),
    ensures
        bytes is Ok <==> (lookup(record.0.pairs(), k@) matches Some(Tree::Data(_))),
        bytes matches Ok(bytes) ==> lookup(record.0.pairs(), k@) == Some(Tree::Data(bytes@)),
        text is Ok <==> (lookup(record.0.pairs(), k@) matches Some(Tree::Text(_))),
        text matches Ok(text) ==> lookup(record.0.pairs(), k@) == Some(Tree::Text(text@)),
{
}

} // verus!
