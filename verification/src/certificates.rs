//! The certificates of a pairing: a root of this computer, and one each for the
//! computer and the phone, signed by it.
use crate::failure::Failure;
use crate::pairing::{
    certificate_key, is_random_uuid, pem_certificate, random_uuid, spki_der_key, KEY_BITS,
};
use crate::text::{lowered, with_lf};
use vstd::prelude::*;
use vstd::utf8::encode_utf8;

verus! {

/// An RSA private key of the `rsa` crate.
#[verifier::external_type_specification]
#[verifier::external_body]
pub struct ExRsaPrivateKey(rsa::RsaPrivateKey);

/// A signing key of the `rcgen` crate.
#[verifier::external_type_specification]
#[verifier::external_body]
pub struct ExKeyPair(rcgen::KeyPair);

/// The contents of a certificate to be signed.
#[verifier::external_type_specification]
#[verifier::external_body]
pub struct ExCertificateParams(rcgen::CertificateParams);

/// The public key of a certificate's subject.
#[verifier::external_type_specification]
#[verifier::external_body]
pub struct ExSubjectPublicKeyInfo(rcgen::SubjectPublicKeyInfo);

/// A signing key with its own certificate.
#[verifier::external_type_specification]
#[verifier::external_body]
#[verifier::reject_recursive_types(S)]
pub struct ExCertifiedIssuer<'a, S>(rcgen::CertifiedIssuer<'a, S>);

/// What a key may be used for.
#[derive(Debug, Clone, Copy, PartialEq, Eq, Structural)]
pub enum KeyUse {
    SignCertificates,
    SignRevocations,
    Sign,
    EncipherKeys,
}

/// What a certificate says of its subject's right to sign certificates.
#[derive(Debug, Clone, Copy, PartialEq, Eq, Structural)]
pub enum Subject {
    /// Nothing.
    Unsaid,
    /// It has none.
    EndEntity,
    /// It has it, without limits.
    Authority,
}

/// What a certificate says, besides what follows from its key and its issuer.
pub struct Plan {
    /// The common name of the subject.
    pub common_name: Option<String>,
    /// Whether the subject may sign certificates.
    pub subject: Subject,
    /// The certificate identifies the key that signed it.
    pub names_authority: bool,
    /// What the key may be used for.
    pub uses: Vec<KeyUse>,
}

/// What a plan holds.
pub ghost struct PlanView {
    pub common_name: Option<Seq<char>>,
    pub subject: Subject,
    pub names_authority: bool,
    pub uses: Seq<KeyUse>,
}

impl View for Plan {
    type V = PlanView;

    open spec fn view(&self) -> PlanView {
        PlanView {
            common_name: match self.common_name {
                Some(name) => Some(name@),
                None => None,
            },
            subject: self.subject,
            names_authority: self.names_authority,
            uses: self.uses@,
        }
    }
}

/// The plan that the contents of a certificate follow.
pub uninterp spec fn params_plan(p: rcgen::CertificateParams) -> PlanView;

/// What the root certificate says.
pub open spec fn root_view() -> PlanView {
    PlanView {
        common_name: Some("AirCard PC Pairing"@),
        subject: Subject::Authority,
        names_authority: false,
        uses: seq![KeyUse::SignCertificates, KeyUse::SignRevocations],
    }
}

/// What the certificates of computer and phone say.
pub open spec fn leaf_view() -> PlanView {
    PlanView {
        common_name: None,
        subject: Subject::EndEntity,
        names_authority: true,
        uses: seq![KeyUse::Sign, KeyUse::EncipherKeys],
    }
}

/// The plan of the root certificate.
pub fn root_plan() -> (plan: Plan)
    ensures
        plan@ == root_view(),
{
    let uses: Vec<KeyUse> = vec![KeyUse::SignCertificates, KeyUse::SignRevocations];
    assert(uses@ =~= seq![KeyUse::SignCertificates, KeyUse::SignRevocations]);
    Plan {
        common_name: Some("AirCard PC Pairing".to_owned()),
        subject: Subject::Authority,
        names_authority: false,
        uses,
    }
}

/// The plan of the certificates of computer and phone.
pub fn leaf_plan() -> (plan: Plan)
    ensures
        plan@ == leaf_view(),
{
    let uses: Vec<KeyUse> = vec![KeyUse::Sign, KeyUse::EncipherKeys];
    assert(uses@ =~= seq![KeyUse::Sign, KeyUse::EncipherKeys]);
    Plan { common_name: None, subject: Subject::EndEntity, names_authority: true, uses }
}

/// The number of bits in the modulus of a private key.
pub uninterp spec fn private_bits(k: rsa::RsaPrivateKey) -> nat;

/// The PKCS#8 bytes of a private key, if it can be encoded.
pub uninterp spec fn private_der(k: rsa::RsaPrivateKey) -> Option<Seq<u8>>;

/// `rsa::RsaPrivateKey::new` with the operating system's random numbers: a key of the
/// given size. Which one it is is left to chance.
#[verifier::external_body]
fn new_private_key(bits: usize) -> (key: Result<rsa::RsaPrivateKey, rsa::Error>)
    requires
        1024 <= bits <= 8192,
    ensures
        key matches Ok(key) ==> private_bits(key) == bits,
{
    rsa::RsaPrivateKey::new(&mut rsa::rand_core::OsRng, bits)
}

/// `rsa::RsaPrivateKey::to_pkcs8_der`: the PKCS#8 bytes of a key, a function of the
/// key.
#[verifier::external_body]
fn private_key_der(key: &rsa::RsaPrivateKey) -> (der: Result<Vec<u8>, rsa::pkcs8::Error>)
    ensures
        match der {
            Ok(der) => private_der(*key) == Some(der@),
            Err(_) => private_der(*key) is None,
        },
{
    Ok(rsa::pkcs8::EncodePrivateKey::to_pkcs8_der(key)?.as_bytes().to_vec())
}

/// The PKCS#8 bytes that a signing key was read from.
pub uninterp spec fn pair_der(k: rcgen::KeyPair) -> Seq<u8>;

/// The bytes are an RSA signing key in PKCS#8 form.
pub uninterp spec fn is_signing_key(der: Seq<u8>) -> bool;

/// `rcgen::KeyPair::from_pkcs8_der_and_sign_algo` for RSA with SHA-256: the signing
/// key in PKCS#8 bytes. Whether they hold one is a function of the bytes.
#[verifier::external_body]
fn signing_key(der: &[u8]) -> (key: Result<rcgen::KeyPair, rcgen::Error>)
    ensures
        match key {
            Ok(key) => is_signing_key(der@) && pair_der(key) == der@,
            Err(_) => !is_signing_key(der@),
        },
{
    rcgen::KeyPair::from_pkcs8_der_and_sign_algo(
        &rustls::pki_types::PrivatePkcs8KeyDer::from(der),
        &rcgen::PKCS_RSA_SHA256,
    )
}

/// The subject public key info bytes that a subject's key was read from.
pub uninterp spec fn subject_der(k: rcgen::SubjectPublicKeyInfo) -> Seq<u8>;

/// The bytes are subject public key info with an algorithm that `rcgen` knows.
pub uninterp spec fn is_subject_key(der: Seq<u8>) -> bool;

/// `rcgen::SubjectPublicKeyInfo::from_der`: the public key in subject public key
/// info bytes, with the algorithm as it stands there. Whether they hold one is a
/// function of the bytes.
#[verifier::external_body]
fn subject_key(der: &[u8]) -> (key: Result<rcgen::SubjectPublicKeyInfo, rcgen::Error>)
    ensures
        match key {
            Ok(key) => is_subject_key(der@) && subject_der(key) == der@,
            Err(_) => !is_subject_key(der@),
        },
{
    rcgen::SubjectPublicKeyInfo::from_der(der)
}

/// `rcgen::KeyUsagePurpose` under this library's names.
#[verifier::external_type_specification]
#[verifier::external_body]
pub struct ExKeyUsagePurpose(rcgen::KeyUsagePurpose);

/// The use that a variant of `rcgen::KeyUsagePurpose` stands for.
pub uninterp spec fn purpose_use(p: rcgen::KeyUsagePurpose) -> KeyUse;

/// The variants of `rcgen::KeyUsagePurpose`.
#[verifier::external_body]
fn purpose(u: KeyUse) -> (p: rcgen::KeyUsagePurpose)
    ensures
        purpose_use(p) == u,
{
    match u {
        KeyUse::SignCertificates => rcgen::KeyUsagePurpose::KeyCertSign,
        KeyUse::SignRevocations => rcgen::KeyUsagePurpose::CrlSign,
        KeyUse::Sign => rcgen::KeyUsagePurpose::DigitalSignature,
        KeyUse::EncipherKeys => rcgen::KeyUsagePurpose::KeyEncipherment,
    }
}

/// The uses that a run of purposes stands for.
pub open spec fn purpose_uses(list: Seq<rcgen::KeyUsagePurpose>) -> Seq<KeyUse> {
    Seq::new(list.len(), |i: int| purpose_use(list[i]))
}

fn purposes(uses: &Vec<KeyUse>) -> (list: Vec<rcgen::KeyUsagePurpose>)
    ensures
        purpose_uses(list@) == uses@,
{
    let mut list: Vec<rcgen::KeyUsagePurpose> = Vec::new();
    let mut i: usize = 0;
    while i < uses.len()
        invariant
            i <= uses@.len(),
            list@.len() == i,
            forall|k: int| 0 <= k < i ==> purpose_use(#[trigger] list@[k]) == uses@[k],
        decreases uses@.len() - i,
    {
        list.push(purpose(uses[i]));
        i = i + 1;
    }
    assert(purpose_uses(list@) =~= uses@);
    list
}

/// `rcgen::IsCa`: what a certificate says of its subject's right to sign.
#[verifier::external_type_specification]
#[verifier::external_body]
pub struct ExIsCa(rcgen::IsCa);

/// What a variant of `rcgen::IsCa` says.
pub uninterp spec fn signing_right(k: rcgen::IsCa) -> Subject;

/// The variants of `rcgen::IsCa`, the one for an authority without limits.
#[verifier::external_body]
fn is_ca(subject: Subject) -> (kind: rcgen::IsCa)
    ensures
        signing_right(kind) == subject,
{
    match subject {
        Subject::Unsaid => rcgen::IsCa::NoCa,
        Subject::EndEntity => rcgen::IsCa::ExplicitNoCa,
        Subject::Authority => rcgen::IsCa::Ca(rcgen::BasicConstraints::Unconstrained),
    }
}

/// `rcgen::CertificateParams::new` without alternative names, which alone can make it
/// fail, with an empty distinguished name, and the fields of a certificate that say what
/// the subject may sign, whether the issuer's key is named, and what the key is for.
#[verifier::external_body]
fn certificate_params(
    kind: rcgen::IsCa,
    names_authority: bool,
    uses: Vec<rcgen::KeyUsagePurpose>,
) -> (params: Result<rcgen::CertificateParams, rcgen::Error>)
    ensures
        params matches Ok(params) && params_plan(params) == (PlanView {
            common_name: None,
            subject: signing_right(kind),
            names_authority,
            uses: purpose_uses(uses@),
        }),
{
    let mut params = rcgen::CertificateParams::new(Vec::<String>::new())?;
    params.distinguished_name = rcgen::DistinguishedName::new();
    params.is_ca = kind;
    params.use_authority_key_identifier_extension = names_authority;
    params.key_usages = uses;
    Ok(params)
}

/// `rcgen::DistinguishedName::push` of a common name to a distinguished name without
/// one.
#[verifier::external_body]
fn name_subject(params: rcgen::CertificateParams, name: &str) -> (named: rcgen::CertificateParams)
    requires
        params_plan(params).common_name is None,
    ensures
        params_plan(named) == (PlanView { common_name: Some(name@), ..params_plan(params) }),
{
    let mut named = params;
    named.distinguished_name.push(rcgen::DnType::CommonName, name);
    named
}

/// The plan and the PKCS#8 key of an issuer.
pub uninterp spec fn issuer_parts(i: rcgen::CertifiedIssuer<'static, rcgen::KeyPair>) -> (
    PlanView,
    Seq<u8>,
);

/// A certificate that follows the plan can be signed by the key that it is for.
pub uninterp spec fn self_signs(plan: PlanView, key: Seq<u8>) -> bool;

/// `rcgen::CertifiedIssuer::self_signed`: the key with a certificate that it signed
/// itself. Whether there is one is a function of the plan and the key: the serial
/// number and the dates follow from them, and RSA with PKCS#1 padding signs without
/// chance.
#[verifier::external_body]
fn self_signed(params: rcgen::CertificateParams, key: rcgen::KeyPair) -> (issuer: Result<
    rcgen::CertifiedIssuer<'static, rcgen::KeyPair>,
    rcgen::Error,
>)
    ensures
        match issuer {
            Ok(issuer) => self_signs(params_plan(params), pair_der(key)) && issuer_parts(issuer) == (
                params_plan(params),
                pair_der(key),
            ),
            Err(_) => !self_signs(params_plan(params), pair_der(key)),
        },
{
    rcgen::CertifiedIssuer::self_signed(params, key)
}

/// The certificate, if there is one, that follows a plan, is for a PKCS#8 key and is
/// signed by an issuer with the given plan and key: as PEM, with line feeds alone at
/// its line ends.
pub uninterp spec fn host_pem(
    plan: PlanView,
    key: Seq<u8>,
    issuer: (PlanView, Seq<u8>),
) -> Option<Seq<char>>;

/// `rcgen::CertificateParams::signed_by` for a signing key, in PEM form: a function of
/// the plan, the key and the issuer, but for the line ends, which are those of the
/// platform.
#[verifier::external_body]
fn signed_for_host(
    params: &rcgen::CertificateParams,
    key: &rcgen::KeyPair,
    issuer: &rcgen::CertifiedIssuer<'static, rcgen::KeyPair>,
) -> (pem: Result<String, rcgen::Error>)
    ensures
        host_pem(params_plan(*params), pair_der(*key), issuer_parts(*issuer)) == match pem {
            Ok(pem) => Some(with_lf(pem@)),
            Err(_) => None,
        },
{
    params.signed_by(key, issuer).map(|c| c.pem())
}

/// The PEM text, with line feeds alone at its line ends, begins with a certificate
/// that carries this RSA key.
pub open spec fn carries(pem: Seq<char>, key: Option<(nat, nat)>) -> bool {
    &&& pem_certificate(encode_utf8(pem)) matches Some(Some(der))
    &&& certificate_key(der) matches Some(info)
    &&& spki_der_key(info) == key
}

/// The certificate, if there is one, that follows a plan, is for a key in subject
/// public key info bytes and is signed by an issuer with the given plan and key: as
/// PEM, with line feeds alone at its line ends.
pub uninterp spec fn device_pem(
    plan: PlanView,
    key: Seq<u8>,
    issuer: (PlanView, Seq<u8>),
) -> Option<Seq<char>>;

/// `rcgen::CertificateParams::signed_by` for a public key, in PEM form: a function of
/// the plan, the key and the issuer, but for the line ends, which are those of the
/// platform. The certificate carries the key, where it is an RSA key.
#[verifier::external_body]
fn signed_for_device(
    params: &rcgen::CertificateParams,
    key: &rcgen::SubjectPublicKeyInfo,
    issuer: &rcgen::CertifiedIssuer<'static, rcgen::KeyPair>,
) -> (pem: Result<String, rcgen::Error>)
    ensures
        device_pem(params_plan(*params), subject_der(*key), issuer_parts(*issuer)) == match pem {
            Ok(pem) => Some(with_lf(pem@)),
            Err(_) => None,
        },
        pem matches Ok(pem) ==> (spki_der_key(subject_der(*key)) is Some ==> carries(
            with_lf(pem@),
            spki_der_key(subject_der(*key)),
        )),
{
    params.signed_by(key, issuer).map(|c| c.pem())
}

/// The certificate that an issuer with the given plan and key signed itself: as PEM,
/// with line feeds alone at its line ends.
pub uninterp spec fn root_pem(issuer: (PlanView, Seq<u8>)) -> Seq<char>;

/// `rcgen::CertifiedIssuer::pem`: the issuer's own certificate, a function of its plan
/// and key, but for the line ends, which are those of the platform.
#[verifier::external_body]
fn issuer_pem(issuer: &rcgen::CertifiedIssuer<'static, rcgen::KeyPair>) -> (pem: String)
    ensures
        with_lf(pem@) == root_pem(issuer_parts(*issuer)),
{
    issuer.pem()
}

/// The PKCS#8 key as PEM, with line feeds alone at its line ends.
pub uninterp spec fn private_pem(key: Seq<u8>) -> Seq<char>;

/// `rcgen::KeyPair::serialize_pem`: the private key, a function of the bytes that it
/// was read from, but for the line ends, which are those of the platform.
#[verifier::external_body]
fn key_pem(key: &rcgen::KeyPair) -> (pem: String)
    ensures
        with_lf(pem@) == private_pem(pair_der(*key)),
{
    key.serialize_pem()
}

/// The certificates of a pairing and the private key of the computer, in PEM form.
pub struct Issued {
    pub device: String,
    pub host: String,
    pub root: String,
    pub host_key: String,
}

/// The texts of a pairing's certificates and of the computer's private key, with line
/// feeds alone at their line ends.
#[verifier::ext_equal]
pub ghost struct IssuedView {
    pub device: Seq<char>,
    pub host: Seq<char>,
    pub root: Seq<char>,
    pub host_key: Seq<char>,
}

impl View for Issued {
    type V = IssuedView;

    open spec fn view(&self) -> IssuedView {
        IssuedView {
            device: with_lf(self.device@),
            host: with_lf(self.host@),
            root: with_lf(self.root@),
            host_key: with_lf(self.host_key@),
        }
    }
}

/// What this computer brings to a pairing.
pub struct HostKeys {
    /// The key of the root, in PKCS#8 form.
    pub root: Vec<u8>,
    /// The key of the computer, in PKCS#8 form.
    pub host: Vec<u8>,
    /// The identifier of the computer in this pairing.
    pub id: String,
}

/// What this computer brings to a pairing.
pub ghost struct KeysView {
    pub root: Seq<u8>,
    pub host: Seq<u8>,
    pub id: Seq<char>,
}

impl View for HostKeys {
    type V = KeysView;

    open spec fn view(&self) -> KeysView {
        KeysView { root: self.root@, host: self.host@, id: self.id@ }
    }
}

/// The bytes are a private key of this size.
pub open spec fn is_sized_key(der: Seq<u8>, bits: nat) -> bool {
    exists|k: rsa::RsaPrivateKey| #[trigger]
        private_der(k) == Some(der) && private_bits(k) == bits
}

/// The bytes are a private key of the size that this program uses.
pub open spec fn is_full_key(der: Seq<u8>) -> bool {
    is_sized_key(der, KEY_BITS as nat)
}

/// A new private key of the given size, in PKCS#8 form. Which one it is is left to
/// chance.
pub fn rsa_key(bits: usize) -> (der: Result<Vec<u8>, Failure>)
    requires
        1024 <= bits <= 8192,
    ensures
        der matches Ok(der) ==> is_sized_key(der@, bits as nat),
        der matches Err(failure) ==> failure is Rsa || failure is Pkcs8,
{
    let key: rsa::RsaPrivateKey = match new_private_key(bits) {
        Ok(key) => key,
        Err(error) => return Err(Failure::Rsa(error)),
    };
    match private_key_der(&key) {
        Ok(der) => Ok(der),
        Err(error) => Err(Failure::Pkcs8(error)),
    }
}

impl HostKeys {
    /// New keys and a new identifier, which are left to chance but for their form.
    pub fn fresh() -> (keys: Result<HostKeys, Failure>)
        ensures
            keys matches Ok(keys) ==> is_full_key(keys@.root) && is_full_key(keys@.host)
                && is_random_uuid(keys@.id) && lowered(keys@.id) == keys@.id,
            keys matches Err(failure) ==> failure is Rsa || failure is Pkcs8,
    {
        HostKeys::of_size(KEY_BITS)
    }

    /// New keys of the given size and a new identifier.
    pub fn of_size(bits: usize) -> (keys: Result<HostKeys, Failure>)
        requires
            1024 <= bits <= 8192,
        ensures
            keys matches Ok(keys) ==> is_sized_key(keys@.root, bits as nat) && is_sized_key(
                keys@.host,
                bits as nat,
            ) && is_random_uuid(keys@.id) && lowered(keys@.id) == keys@.id,
            keys matches Err(failure) ==> failure is Rsa || failure is Pkcs8,
    {
        let root: Vec<u8> = match rsa_key(bits) {
            Ok(der) => der,
            Err(failure) => return Err(failure),
        };
        let host: Vec<u8> = match rsa_key(bits) {
            Ok(der) => der,
            Err(failure) => return Err(failure),
        };
        Ok(HostKeys { root, host, id: random_uuid() })
    }
}

fn pairing_key(der: &[u8]) -> (key: Result<rcgen::KeyPair, Failure>)
    ensures
        match key {
            Ok(key) => is_signing_key(der@) && pair_der(key) == der@,
            Err(failure) => !is_signing_key(der@) && is_signing_failure(failure),
        },
{
    match signing_key(der) {
        Ok(key) => Ok(key),
        Err(error) => Err(Failure::Rcgen(error).context("Generating pairing key")),
    }
}

/// A key could not be used for signing.
pub open spec fn is_signing_failure(failure: Failure) -> bool {
    failure matches Failure::Under(context, inner) && context@ == "Generating pairing key"@
        && *inner is Rcgen
}

fn planned(plan: &Plan) -> (params: Result<rcgen::CertificateParams, Failure>)
    ensures
        params matches Ok(params) && params_plan(params) == plan@,
{
    match certificate_params(is_ca(plan.subject), plan.names_authority, purposes(&plan.uses)) {
        Ok(params) => match &plan.common_name {
            Some(name) => Ok(name_subject(params, name.as_str())),
            None => Ok(params),
        },
        Err(error) => Err(Failure::Rcgen(error)),
    }
}

/// The texts of the certificates for the phone's key and for this computer's keys, if
/// they can be made: a root for the root key, and one each for the computer's key and
/// for the phone's, both signed by the root.
pub open spec fn issued_for(device_key: Seq<u8>, keys: KeysView) -> Option<IssuedView> {
    let issuer = (root_view(), keys.root);
    if is_subject_key(device_key) && is_signing_key(keys.root) && self_signs(root_view(), keys.root)
        && is_signing_key(keys.host) {
        match (
            device_pem(leaf_view(), device_key, issuer),
            host_pem(leaf_view(), keys.host, issuer),
        ) {
            (Some(device), Some(host)) => Some(
                IssuedView {
                    device,
                    host,
                    root: root_pem(issuer),
                    host_key: private_pem(keys.host),
                },
            ),
            _ => None,
        }
    } else {
        None
    }
}

/// How it is said that the certificates cannot be made: a key of this computer that
/// cannot sign is named as such.
pub open spec fn refuses(device_key: Seq<u8>, keys: KeysView, failure: Failure) -> bool {
    if is_subject_key(device_key) && (!is_signing_key(keys.root) || (self_signs(
        root_view(),
        keys.root,
    ) && !is_signing_key(keys.host))) {
        is_signing_failure(failure)
    } else {
        failure is Rcgen
    }
}

/// The certificates for the phone's key and for this computer's keys.
pub fn issue(device_key: &[u8], keys: &HostKeys) -> (issued: Result<Issued, Failure>)
    ensures
        match issued {
            Ok(issued) => issued_for(device_key@, keys@) == Some(issued@) && (spki_der_key(
                device_key@,
            ) is Some ==> carries(issued@.device, spki_der_key(device_key@))),
            Err(failure) => issued_for(device_key@, keys@) is None && refuses(
                device_key@,
                keys@,
                failure,
            ),
        },
{
    let device: rcgen::SubjectPublicKeyInfo = match subject_key(device_key) {
        Ok(key) => key,
        Err(error) => return Err(Failure::Rcgen(error)),
    };
    let root_params: rcgen::CertificateParams = match planned(&root_plan()) {
        Ok(params) => params,
        Err(failure) => return Err(failure),
    };
    let root_key: rcgen::KeyPair = match pairing_key(keys.root.as_slice()) {
        Ok(key) => key,
        Err(failure) => return Err(failure),
    };
    let root = match self_signed(root_params, root_key) {
        Ok(root) => root,
        Err(error) => return Err(Failure::Rcgen(error)),
    };
    let host_key: rcgen::KeyPair = match pairing_key(keys.host.as_slice()) {
        Ok(key) => key,
        Err(failure) => return Err(failure),
    };
    let params: rcgen::CertificateParams = match planned(&leaf_plan()) {
        Ok(params) => params,
        Err(failure) => return Err(failure),
    };
    let host: String = match signed_for_host(&params, &host_key, &root) {
        Ok(pem) => pem,
        Err(error) => return Err(Failure::Rcgen(error)),
    };
    let device: String = match signed_for_device(&params, &device, &root) {
        Ok(pem) => pem,
        Err(error) => return Err(Failure::Rcgen(error)),
    };
    Ok(Issued { device, host, root: issuer_pem(&root), host_key: key_pem(&host_key) })
}

/// The root may sign certificates and revocations and nothing else, and has a name; the
/// certificates of computer and phone may sign no certificate, name the key that signed
/// them, have no name of their own, and are for signing and for the enciphering of keys.
pub proof fn only_the_root_may_sign_certificates(root: Plan, leaf: Plan)
    requires
        call_ensures(root_plan, (), root),
        call_ensures(leaf_plan, (), leaf),
    ensures
        root.subject == Subject::Authority,
        !root.names_authority,
        root.uses@ == seq![KeyUse::SignCertificates, KeyUse::SignRevocations],
        root@.common_name == Some("AirCard PC Pairing"@),
        leaf.subject == Subject::EndEntity,
        leaf.names_authority,
        leaf.uses@ == seq![KeyUse::Sign, KeyUse::EncipherKeys],
        leaf.common_name is None,
{
    assert(root.uses@ == root@.uses);
    assert(leaf.uses@ == leaf@.uses);
}

/// The certificate for the phone is for the key of the phone, the one for the computer
/// is for the computer's key, and both are signed by the root, whose certificate is for
/// the root's key; the private key is the computer's.
pub proof fn each_certificate_is_for_its_key(
    device_key: &[u8],
    keys: HostKeys,
    issued: Result<Issued, Failure>,
)
    requires
        call_ensures(issue, (device_key, &keys), issued),
    ensures
        issued matches Ok(issued) ==> device_pem(
            leaf_view(),
            device_key@,
            (root_view(), keys.root@),
        ) == Some(with_lf(issued.device@)) && host_pem(
            leaf_view(),
            keys.host@,
            (root_view(), keys.root@),
        ) == Some(with_lf(issued.host@)) && with_lf(issued.root@) == root_pem(
            (root_view(), keys.root@),
        ) && with_lf(issued.host_key@) == private_pem(keys.host@),
        issued matches Ok(issued) ==> (spki_der_key(device_key@) is Some ==> carries(
            with_lf(issued.device@),
            spki_der_key(device_key@),
        )),
{
}

} // verus!
