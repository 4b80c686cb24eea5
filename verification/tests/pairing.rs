use aircard::certificates::{rsa_key, HostKeys};
use aircard::failure::Failure;
use aircard::pairing::{
    assemble, certificate_der, certificate_found, generate, generate_from, pinned, PairRecord,
    PairStore,
};
use aircard::usb_opening::own_identity;
use aircard::value::{debug_text, parse, Dict, Plist};
use rsa::pkcs1::EncodeRsaPublicKey;
use rsa::pkcs8::{DecodePrivateKey, EncodePrivateKey, EncodePublicKey};
use rsa::traits::PublicKeyParts;
use rsa::RsaPrivateKey;
use x509_parser::prelude::FromDer;

/// Four primes of 1024 bits each, the largest first. Finding others takes longer than
/// a test should.
const PRIMES: [&str; 4] = [
    "E21B6AD762232D55F8D072CC8F5832B900A6327C23DA84D47811FEEE84464FC09128AE8FD127A787\
     5D6322D70BA2C02A4B603AE7B556F1FE82EE2791D0BA19318BF8B8EC98D3D871106B5CEB2D73DC5D\
     A03FFC430CF1B83FECEE6FD733161E57FEF4346C4BA17AC81F401CEE57AB9EE1BD4114A918DEC622\
     24868AAA5C73EBD3",
    "D8A6D30FD625347C28656CE07B87F922520F0B96846059C5407BF4408AF697943C46FDF6481B281F\
     D670AEB14A79BF7863A7A00D14641B3F145C6D0FFCBDCB134BF889C952D1BB35A6B84159CE54AFAC\
     0F9C369D49D2B468251CD451758FC3EF8B3087621C24353D7AA921D584582C74FEB731B10EF06DAC\
     62FEF36A13B814CF",
    "CFDB30D278CBF39509969A3EF7BB577DF9284028934A2F7956A4685EFA1419C8D75FD51B2985039E\
     47FB3B7B21C392E8DF061A87B300AD5DBF2C26FABDA294D4EE5E1390B3BCE25895EF5AE9D8991286\
     7543D3209D290ADA1D65AB7E6EF6E39A8186F2A15EFEF1ACC439DAE183077B1514E64626FEA60F9A\
     C0A2884C8A6A5A75",
    "C2D0D986757D10BD579C1CA3D4BAF2241737ADAD03FEC4EAAD0F6B901DB63810167C3578739DA69C\
     A019DAEB1781CD311289C358498EA7D90D2FCA7D0F65F7B5F060A9C79CDA762BB9983632068E1EEA\
     C3AA1EDDFB53D60825F827E01F01610F5F25CC5067834530F4735A408B196D748809C01A9AB52C8F\
     44C18CC81E402E85",
];

/// The key that two of the primes make.
fn key(p: usize, q: usize) -> RsaPrivateKey {
    let number = |digits: &str| rsa::BigUint::parse_bytes(digits.as_bytes(), 16).unwrap();
    RsaPrivateKey::from_p_q(number(PRIMES[p]), number(PRIMES[q]), rsa::BigUint::from(65537u32))
        .unwrap()
}

/// Keys of this computer.
fn own_keys() -> HostKeys {
    let der = |key: RsaPrivateKey| key.to_pkcs8_der().unwrap().as_bytes().to_vec();
    HostKeys {
        root: der(key(0, 1)),
        host: der(key(2, 3)),
        id: "6a1b0c6e-8f0a-4c8e-9d58-0a4d3c2b1f00".into(),
    }
}

#[test]
fn wrong_phone_certificate_is_rejected_and_private_key_not_sent() {
    let device = key(0, 2);
    let public = device.to_public_key().to_pkcs1_pem(Default::default()).unwrap();
    let record = generate_from(public.as_bytes(), "test-buid", &own_keys()).unwrap();
    assert!(record.matches_device(public.as_bytes()).unwrap());
    for key in ["RootCertificate", "HostCertificate", "DeviceCertificate", "HostPrivateKey"] {
        assert!(!record.data(key).unwrap().contains(&b'\r'), "{key} must use LF PEM");
    }
    let mut legacy = PairRecord(record.0.clone());
    legacy.0.remove("PairingFormatVersion");
    assert!(!legacy.matches_device(public.as_bytes()).unwrap());
    let other = key(1, 3)
        .to_public_key()
        .to_pkcs1_pem(Default::default())
        .unwrap();
    assert!(!record.matches_device(other.as_bytes()).unwrap());
    let sent = record.public_record().unwrap();
    assert!(sent.as_dictionary().unwrap().get("HostPrivateKey").is_none());
    record.native_tls_connector().unwrap();
    let cert = certificate_der(record.data("DeviceCertificate").unwrap()).unwrap();
    record.verify_peer_certificate(cert.as_ref()).unwrap();
    assert!(record.verify_peer_certificate(b"wrong certificate").is_err());
}

#[test]
fn certificates_carry_their_keys() {
    let public = key(0, 2).to_public_key().to_pkcs1_pem(Default::default()).unwrap();
    let record = generate_from(public.as_bytes(), "buid", &own_keys()).unwrap();
    let root = certificate_der(record.data("RootCertificate").unwrap()).unwrap();
    let host = certificate_der(record.data("HostCertificate").unwrap()).unwrap();
    let device = certificate_der(record.data("DeviceCertificate").unwrap()).unwrap();
    let (_, root) = x509_parser::certificate::X509Certificate::from_der(&root).unwrap();
    let (_, host) = x509_parser::certificate::X509Certificate::from_der(&host).unwrap();
    let (_, device) = x509_parser::certificate::X509Certificate::from_der(&device).unwrap();
    assert!(root.is_ca());
    assert!(!host.is_ca());
    assert!(!device.is_ca());
    assert_eq!(host.issuer().to_string(), root.subject().to_string());
    assert_eq!(device.issuer().to_string(), root.subject().to_string());
    for (certificate, key) in [(&root, key(0, 1)), (&host, key(2, 3)), (&device, key(0, 2))] {
        let expected = key.to_public_key().to_public_key_der().unwrap();
        assert_eq!(certificate.public_key().raw, expected.as_bytes());
    }
    assert!(root.subject().to_string().contains("AirCard PC Pairing"));
    assert_eq!(host.subject().to_string(), "");
    let private = record.data("HostPrivateKey").unwrap();
    let private = std::str::from_utf8(private).unwrap();
    assert_eq!(RsaPrivateKey::from_pkcs8_pem(private).unwrap(), key(2, 3));
    let again = generate_from(public.as_bytes(), "buid", &own_keys()).unwrap();
    for name in ["RootCertificate", "HostCertificate", "DeviceCertificate", "HostPrivateKey"] {
        assert_eq!(record.data(name).unwrap(), again.data(name).unwrap());
    }
}

#[test]
fn both_forms_of_a_public_key_match() {
    let device = key(0, 2).to_public_key();
    let short = device.to_pkcs1_pem(Default::default()).unwrap();
    let long = device.to_public_key_pem(Default::default()).unwrap();
    let record = generate_from(short.as_bytes(), "buid", &own_keys()).unwrap();
    assert!(record.matches_device(long.as_bytes()).unwrap());
    assert!(record.matches_device(b"no key").is_err());
    assert!(generate(b"no key", "buid").is_err());
    let mut broken = own_keys();
    broken.host = b"no key".to_vec();
    let e = generate_from(short.as_bytes(), "buid", &broken).unwrap_err();
    assert_eq!(e.headline(), "Generating pairing key");
}

#[test]
fn a_record_holds_the_given_fields() {
    let record = assemble("D\r\n", "H\r\n", "R\r\n", "K\r\n", "id", "system");
    assert_eq!(record.data("DeviceCertificate").unwrap(), b"D\n");
    assert_eq!(record.data("HostCertificate").unwrap(), b"H\n");
    assert_eq!(record.data("RootCertificate").unwrap(), b"R\n");
    assert_eq!(record.data("HostPrivateKey").unwrap(), b"K\n");
    assert_eq!(record.text("HostID").unwrap(), "ID");
    assert_eq!(record.text("SystemBUID").unwrap(), "system");
    assert_eq!(record.0.number("PairingFormatVersion"), Some(3));
    assert!(record.data("Nothing").is_err());
    assert!(record.text("DeviceCertificate").is_err());
}

#[test]
fn only_public_fields_are_sent() {
    let record = assemble("D", "H", "R", "K", "id", "system");
    let sent = record.public_record().unwrap();
    let sent = sent.as_dictionary().unwrap();
    assert_eq!(sent.len(), 5);
    for key in ["DeviceCertificate", "HostCertificate", "RootCertificate", "HostID", "SystemBUID"] {
        assert!(sent.get(key).is_some(), "{key}");
    }
    assert!(PairRecord(Dict::new()).public_record().is_err());
}

#[test]
fn other_certificates_are_refused() {
    assert!(pinned(b"same", b"same").is_ok());
    let e = pinned(b"same", b"else").unwrap_err();
    assert!(e.message().contains("does not match"), "{}", e.message());
    assert!(certificate_found(None).is_err());
    assert!(certificate_found(Some(Err(std::io::Error::other("bad")))).is_err());
    assert_eq!(certificate_found(Some(Ok(vec![1]))).unwrap(), vec![1]);
    assert!(certificate_der(b"no certificate").is_err());
}

#[test]
fn records_come_back_from_their_store() {
    let store = PairStore::at("pairs".into());
    let mut d = Dict::new();
    d.insert("HostPrivateKey".into(), Plist::Data(b"secret-test-material".to_vec()));
    let odd = b"<?xml version=\"1.0\"?><plist version=\"1.0\"><array><integer>-1</integer>\
        <real>0.5</real><date>2024-05-06T07:08:09Z</date></array></plist>";
    let odd = parse(odd).unwrap();
    d.insert("Odd".into(), odd.clone());
    let plaintext = store.save(&PairRecord(d));
    let back = store.load(Some(&plaintext)).unwrap().unwrap();
    assert_eq!(debug_text(back.0.get("Odd").unwrap()), debug_text(&odd));
    assert_eq!(back.data("HostPrivateKey").unwrap(), b"secret-test-material");
    assert!(store.load(Some(b"garbage")).is_err());
    assert!(store.load(None).unwrap().is_none());
    assert!(store.path("../bad").is_err());
    let name = store.path("000081300000000000000001").unwrap();
    assert_eq!(name, "00008130-0000000000000001.dpapi");
    assert!(store.check_size(&[0; 100]).is_ok());
    assert!(store.check_size(&vec![0; 131_072]).is_err());
}

#[test]
fn the_computer_keeps_its_identifier() {
    let store = PairStore::at("pairs".into());
    let (fresh, new) = store.buid(None);
    assert!(new);
    assert_eq!(fresh.len(), 36);
    assert_eq!(fresh, fresh.to_uppercase());
    let (kept, new) = store.buid(Some(&format!(" {fresh}\n")));
    assert!(!new);
    assert_eq!(kept, fresh);
    let plain = fresh.replace('-', "");
    for form in [plain.clone(), fresh.to_lowercase(), format!("{{{fresh}}}"), format!("URN:uuid:{fresh}")] {
        assert_eq!(store.buid(Some(&form)), (form, false));
    }
    for form in [&plain[1..], "{6a1b0c6e}", &fresh[1..], &format!("urn:uuid-{fresh}"), &fresh.replace('4', "g")] {
        assert!(store.buid(Some(form)).1);
    }
    let digits: Vec<char> = fresh.chars().collect();
    for (i, c) in digits.iter().enumerate() {
        match i {
            8 | 13 | 18 | 23 => assert_eq!(*c, '-'),
            14 => assert_eq!(*c, '4'),
            19 => assert!("89AB".contains(*c)),
            _ => assert!(c.is_ascii_digit() || ('A'..='F').contains(c)),
        }
    }
    let (other, new) = store.buid(Some("no identifier"));
    assert!(new);
    assert_ne!(other, fresh);
}

#[test]
fn new_keys_have_their_size() {
    let first = rsa_key(1024).unwrap();
    let key = RsaPrivateKey::from_pkcs8_der(&first).unwrap();
    assert_eq!(key.n().bits(), 1024);
    assert_ne!(rsa_key(1024).unwrap(), first);
}

#[test]
fn a_lost_identifier_stops_a_pairing() {
    let e = own_identity(Err(Failure::said("disk"))).map(|_| ()).unwrap_err();
    assert_eq!(e.message(), "disk");
}

#[test]
fn new_keys_come_with_an_identifier() {
    let keys = HostKeys::of_size(1024).unwrap();
    for der in [&keys.root, &keys.host] {
        assert_eq!(RsaPrivateKey::from_pkcs8_der(der).unwrap().n().bits(), 1024);
    }
    assert_ne!(keys.root, keys.host);
    let store = PairStore::at("pairs".into());
    assert_eq!(store.buid(Some(&keys.id)), (keys.id.clone(), false));
    assert_eq!(keys.id, keys.id.to_lowercase());
    assert_eq!(keys.id.as_bytes()[14], b'4');
}

#[test]
fn a_record_without_a_certificate_vouches_for_nobody() {
    let record = |pem: &[u8]| {
        let mut d = Dict::new();
        d.insert("DeviceCertificate".into(), Plist::Data(pem.to_vec()));
        PairRecord(d)
    };
    let e = record(b"no certificate").verify_peer_certificate(b"x").unwrap_err();
    assert_eq!(e.message(), "Missing certificate");
    let broken = b"-----BEGIN CERTIFICATE-----\n*\n-----END CERTIFICATE-----\n";
    let e = record(broken).verify_peer_certificate(b"x").unwrap_err();
    assert_eq!(e.headline(), "Invalid certificate PEM");
    let e = PairRecord(Dict::new()).verify_peer_certificate(b"x").unwrap_err();
    assert_eq!(e.message(), "Pair record missing DeviceCertificate");
}

#[test]
fn the_first_missing_public_field_is_named() {
    let record = assemble("D", "H", "R", "K", "id", "system");
    for name in ["RootCertificate", "HostID"] {
        let mut without = PairRecord(record.0.clone());
        without.0.remove(name);
        let e = without.public_record().map(|_| ()).unwrap_err();
        assert_eq!(e.message(), format!("Missing {name}"));
    }
}

#[test]
fn keys_that_cannot_sign_are_named() {
    let public = key(0, 2).to_public_key().to_pkcs1_pem(Default::default()).unwrap();
    let mut keys = own_keys();
    keys.root = b"no key".to_vec();
    let e = generate_from(public.as_bytes(), "buid", &keys).unwrap_err();
    assert_eq!(e.headline(), "Generating pairing key");
}
