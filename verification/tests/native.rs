use moq::native::{root_certificate, trusted_roots, ClientConfig, Roots, ServerConfig};
use moq::native::{
    accept_alpn, alpn, connect_plan, connect_target, fingerprints, parse_fingerprint, Accepted, ConnectPlan,
    FingerprintVerifier, Level, LevelFilter, Log, NativeError, ServerTlsCert, ServerTlsConfig, Transport,
};

const ABC_SHA256: &str = "ba7816bf8f01cfea414140de5dae2223b00361a396177a9cb410ff61f20015ad";

#[test]
fn log_levels() {
    assert_eq!(Log::default().level, Level::Info);
    assert_eq!(Log::default().level(), LevelFilter::Info);
    assert_eq!(Log { level: Level::Trace }.level(), LevelFilter::Trace);
    assert_eq!(Log { level: Level::Error }.level(), LevelFilter::Error);
}

#[test]
fn tls_cert_setting() {
    let c = ServerTlsCert::parse("cert.pem:key.pem").unwrap();
    assert_eq!(c.chain, "cert.pem");
    assert_eq!(c.key, "key.pem");
    let c = ServerTlsCert::parse("a:b:c").unwrap();
    assert_eq!(c.chain, "a");
    assert_eq!(c.key, "b:c");
    assert_eq!(ServerTlsCert::parse("cert.pem"), Err(NativeError::InvalidCertificate));
    let d = ServerTlsConfig::default();
    assert!(d.cert.is_empty() && d.generate.is_empty());
}

#[test]
fn fingerprints_are_lowercase_hex_sha256() {
    let fps = fingerprints(&vec![b"abc".to_vec(), vec![]]);
    assert_eq!(fps.len(), 2);
    assert_eq!(fps[0], ABC_SHA256);
    assert_eq!(fps[1], "e3b0c44298fc1c149afbf4c8996fb92427ae41e4649b934ca495991b7852b855");
}

#[test]
fn fingerprint_verifier() {
    let expected = parse_fingerprint(&format!("  {}\n", ABC_SHA256.to_uppercase())).unwrap();
    assert_eq!(expected.len(), 32);
    let verifier = FingerprintVerifier::new(expected);
    assert_eq!(verifier.verify_server_cert(b"abc"), Ok(()));
    assert_eq!(verifier.verify_server_cert(b"abd"), Err(NativeError::FingerprintMismatch));
}

#[test]
fn fingerprint_text() {
    assert_eq!(parse_fingerprint("00ff10"), Ok(vec![0x00, 0xff, 0x10]));
    assert_eq!(parse_fingerprint("\t0A\r\n"), Ok(vec![0x0a]));
    assert_eq!(parse_fingerprint(""), Ok(vec![]));
    assert_eq!(parse_fingerprint("abc"), Err(NativeError::InvalidFingerprint));
    assert_eq!(parse_fingerprint("zz"), Err(NativeError::InvalidFingerprint));
    assert_eq!(parse_fingerprint("a b"), Err(NativeError::InvalidFingerprint));
}

#[test]
fn connect_by_scheme() {
    assert_eq!(
        connect_plan("http"),
        Ok(ConnectPlan { fetch_fingerprint: true, transport: Transport::WebTransport })
    );
    assert_eq!(
        connect_plan("https"),
        Ok(ConnectPlan { fetch_fingerprint: false, transport: Transport::WebTransport })
    );
    assert_eq!(connect_plan("moql"), Ok(ConnectPlan { fetch_fingerprint: false, transport: Transport::Raw }));
    assert_eq!(connect_plan("ftp"), Err(NativeError::UnsupportedScheme));
    assert_eq!(alpn(Transport::WebTransport), "h3");
    assert_eq!(alpn(Transport::Raw), "moql");
}

#[test]
fn connect_target_defaults_to_443() {
    assert_eq!(connect_target(Some("relay.example".to_string()), None), Ok(("relay.example".to_string(), 443)));
    assert_eq!(connect_target(Some("localhost".to_string()), Some(4443)), Ok(("localhost".to_string(), 4443)));
    assert_eq!(connect_target(None, Some(4443)), Err(NativeError::InvalidDnsName));
}

#[test]
fn accept_by_alpn() {
    assert_eq!(accept_alpn(None, None), Err(NativeError::MissingAlpn));
    assert_eq!(accept_alpn(Some(vec![0xff]), None), Err(NativeError::InvalidAlpn));
    assert_eq!(accept_alpn(Some(b"h3".to_vec()), None), Ok(Accepted::WebTransport));
    assert_eq!(
        accept_alpn(Some(b"moql".to_vec()), Some("relay.example".to_string())),
        Ok(Accepted::Raw { url: "moql://relay.example".to_string() })
    );
    assert_eq!(accept_alpn(Some(b"moql".to_vec()), None), Ok(Accepted::Raw { url: "moql://".to_string() }));
    assert_eq!(accept_alpn(Some(b"h2".to_vec()), None), Err(NativeError::UnsupportedAlpn("h2".to_string())));
}

#[test]
fn endpoint_defaults() {
    let server = ServerConfig::default();
    assert_eq!(server.listen_addr(), "[::]:443");
    assert!(!server.generates_certificate());
    let server = ServerConfig {
        listen: Some("127.0.0.1:4443".to_string()),
        tls: ServerTlsConfig { cert: vec![], generate: vec!["localhost".to_string()] },
    };
    assert_eq!(server.listen_addr(), "127.0.0.1:4443");
    assert!(server.generates_certificate());

    let client = ClientConfig::default();
    assert_eq!(client.bind, "[::]:0");
    assert_eq!(client.roots(), Roots::Native);
    let client = ClientConfig { tls_roots: vec!["ca.pem".to_string()], ..ClientConfig::default() };
    assert_eq!(client.roots(), Roots::Files(vec!["ca.pem".to_string()]));
}

#[test]
fn server_fingerprints_loaded_then_generated() {
    let loaded = vec![b"abc".to_vec()];
    let generated = Some(vec![]);
    let none = ServerConfig::default();
    assert_eq!(none.fingerprints(&loaded, &generated), vec![ABC_SHA256.to_string()]);
    let gen = ServerConfig {
        listen: None,
        tls: ServerTlsConfig { cert: vec![], generate: vec!["localhost".to_string()] },
    };
    assert_eq!(
        gen.fingerprints(&loaded, &generated),
        vec![
            ABC_SHA256.to_string(),
            "e3b0c44298fc1c149afbf4c8996fb92427ae41e4649b934ca495991b7852b855".to_string()
        ]
    );
}

#[test]
fn roots_take_the_first_certificate_of_each_file() {

    assert_eq!(root_certificate(vec![vec![1], vec![2]]), Ok(vec![1]));
    assert_eq!(root_certificate(vec![]), Err(NativeError::NoRoots));
    assert_eq!(trusted_roots(vec![vec![vec![1], vec![2]], vec![vec![3]]]), Ok(vec![vec![1], vec![3]]));
    assert_eq!(trusted_roots(vec![vec![vec![1]], vec![]]), Err(NativeError::NoRoots));
    assert_eq!(trusted_roots(vec![]), Ok(vec![]));
}
