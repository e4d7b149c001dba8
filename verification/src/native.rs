//! Native QUIC endpoints: the log level, the TLS certificate settings, the
//! certificate fingerprints, and what a client or a server decides when a
//! connection starts.
use vstd::prelude::*;

use hex::FromHexError;
use ring::digest::{digest, SHA256};

use crate::coding::string_from_utf8;
use crate::text::{compare_bytes, compare_paths, owned, split_once, PathOrder};

verus! {

#[verifier::external_type_specification]
#[verifier::external_body]
pub struct ExFromHexError(FromHexError);

// ---------------------------------------------------------------------------
// Logging.

/// How verbose a log event is.
#[derive(Debug, Clone, Copy, PartialEq, Eq, Structural)]
pub enum Level {
    Trace,
    Debug,
    Info,
    Warn,
    Error,
}

/// Which log events are kept: those at least as severe as a level, or none.
#[derive(Debug, Clone, Copy, PartialEq, Eq, Structural)]
pub enum LevelFilter {
    Off,
    Trace,
    Debug,
    Info,
    Warn,
    Error,
}

/// The log configuration.
#[derive(Debug, Clone, Copy, PartialEq, Eq, Structural)]
pub struct Log {
    /// The level filter to use.
    pub level: Level,
}

impl Default for Log {
    fn default() -> (r: Self)
        ensures
            r.level == Level::Info,
    {
        Log { level: Level::Info }
    }
}

impl Log {
    /// The filter that keeps the events at least as severe as the level.
    pub fn level(&self) -> (r: LevelFilter)
        ensures
            r == match self.level {
                Level::Trace => LevelFilter::Trace,
                Level::Debug => LevelFilter::Debug,
                Level::Info => LevelFilter::Info,
                Level::Warn => LevelFilter::Warn,
                Level::Error => LevelFilter::Error,
            },
    {
        match self.level {
            Level::Trace => LevelFilter::Trace,
            Level::Debug => LevelFilter::Debug,
            Level::Info => LevelFilter::Info,
            Level::Warn => LevelFilter::Warn,
            Level::Error => LevelFilter::Error,
        }
    }
}

// ---------------------------------------------------------------------------
// TLS settings.

/// Why a setting, a connection or a certificate was refused.
#[derive(Debug, PartialEq, Eq)]
pub enum NativeError {
    /// A certificate setting is not `CHAIN:KEY`.
    InvalidCertificate,
    /// The URL has no host to connect to.
    InvalidDnsName,
    /// The URL's scheme is not `http`, `https` or `moql`.
    UnsupportedScheme,
    /// The fingerprint fetched over HTTP is not hexadecimal.
    InvalidFingerprint,
    /// The server's certificate does not have the expected fingerprint.
    FingerprintMismatch,
    /// The client offered no application protocol.
    MissingAlpn,
    /// The application protocol is not UTF-8.
    InvalidAlpn,
    /// The application protocol is neither WebTransport nor MoQ.
    UnsupportedAlpn(String),
    /// A file of TLS roots holds no certificate.
    NoRoots,
}

/// A certificate chain and its private key, by file name.
#[derive(Debug, Clone, PartialEq, Eq)]
pub struct ServerTlsCert {
    pub chain: String,
    pub key: String,
}

impl ServerTlsCert {
    /// Parse `CHAIN:KEY`: the file names before and after the first colon.
    pub fn parse(s: &str) -> (r: Result<Self, NativeError>)
        ensures
            r is Err <==> !s@.contains(':'),
            r is Err ==> r == Err::<Self, NativeError>(NativeError::InvalidCertificate),
            r matches Ok(c) ==> s@ == c.chain@ + seq![':'] + c.key@ && !c.chain@.contains(':'),
    {
        match split_once(s, ':') {
            None => Err(NativeError::InvalidCertificate),
            Some((chain, key)) => Ok(ServerTlsCert { chain: owned(chain), key: owned(key) }),
        }
    }
}

/// The certificates of a server: loaded from files, or generated for the
/// given host names.
#[derive(Debug, Clone, PartialEq, Eq)]
pub struct ServerTlsConfig {
    pub cert: Vec<ServerTlsCert>,
    pub generate: Vec<String>,
}

impl Default for ServerTlsConfig {
    fn default() -> (r: Self)
        ensures
            r.cert@.len() == 0,
            r.generate@.len() == 0,
    {
        ServerTlsConfig { cert: Vec::new(), generate: Vec::new() }
    }
}

/// The settings of a server endpoint.
#[derive(Debug, Clone, PartialEq, Eq)]
pub struct ServerConfig {
    /// The UDP address to listen on; `[::]:443` when none is given.
    pub listen: Option<String>,
    pub tls: ServerTlsConfig,
}

impl Default for ServerConfig {
    fn default() -> (r: Self)
        ensures
            r.listen is None,
            r.tls.cert@.len() == 0,
            r.tls.generate@.len() == 0,
    {
        ServerConfig { listen: None, tls: ServerTlsConfig::default() }
    }
}

impl ServerConfig {
    /// The address to listen on.
    pub fn listen_addr(&self) -> (r: String)
        ensures
            match self.listen {
                Some(l) => r@ == l@,
                None => r@ == "[::]:443"@,
            },
    {
        match &self.listen {
            Some(l) => owned(l.as_str()),
            None => owned("[::]:443"),
        }
    }

    /// Whether a certificate is to be generated, for the configured host
    /// names.
    pub fn generates_certificate(&self) -> (r: bool)
        ensures
            r == (self.tls.generate@.len() > 0),
    {
        self.tls.generate.len() > 0
    }
}

/// The settings of a client endpoint.
#[derive(Debug, Clone, PartialEq, Eq)]
pub struct ClientConfig {
    /// The UDP address to bind to.
    pub bind: String,
    /// Files of the TLS roots to trust, encoded as PEM; none means the
    /// platform's roots.
    pub tls_roots: Vec<String>,
    /// Accept any server certificate.
    pub tls_disable_verify: bool,
}

impl Default for ClientConfig {
    fn default() -> (r: Self)
        ensures
            r.bind@ == "[::]:0"@,
            r.tls_roots@.len() == 0,
            !r.tls_disable_verify,
    {
        ClientConfig { bind: owned("[::]:0"), tls_roots: Vec::new(), tls_disable_verify: false }
    }
}

/// Where a client takes the TLS roots it trusts from.
#[derive(Debug, PartialEq, Eq)]
pub enum Roots {
    /// The platform's root certificates.
    Native,
    /// The first certificate of each of these PEM files.
    Files(Vec<String>),
}

/// The root certificate a file of TLS roots gives, from the certificates
/// read from it in order: the first one; a file without any is refused.
pub fn root_certificate(certs: Vec<Vec<u8>>) -> (r: Result<Vec<u8>, NativeError>)
    ensures
        certs@.len() == 0 ==> r == Err::<Vec<u8>, NativeError>(NativeError::NoRoots),
        certs@.len() > 0 ==> (r matches Ok(c) && c@ == certs@[0]@),
{
    let mut certs = certs;
    if certs.len() == 0 {
        Err(NativeError::NoRoots)
    } else {
        Ok(certs.remove(0))
    }
}

/// The root certificates a client trusts, from the certificates read from
/// each configured file, in order: the first of each file. The first file
/// without any certificate is refused.
pub fn trusted_roots(files: Vec<Vec<Vec<u8>>>) -> (r: Result<Vec<Vec<u8>>, NativeError>)
    ensures
        r is Ok <==> forall|i: int| 0 <= i < files@.len() ==> (#[trigger] files@[i])@.len() > 0,
        r is Err ==> r == Err::<Vec<Vec<u8>>, NativeError>(NativeError::NoRoots),
        r matches Ok(roots) ==> roots@.len() == files@.len() && forall|i: int|
            0 <= i < files@.len() ==> (#[trigger] roots@[i])@ == files@[i]@[0]@,
{
    let mut roots: Vec<Vec<u8>> = Vec::new();
    let mut i: usize = 0;
    while i < files.len()
        invariant
            i <= files@.len(),
            roots@.len() == i,
            forall|k: int| 0 <= k < i ==> (#[trigger] files@[k])@.len() > 0,
            forall|k: int| 0 <= k < i ==> (#[trigger] roots@[k])@ == files@[k]@[0]@,
        decreases files@.len() - i,
    {
        if files[i].len() == 0 {
            return Err(NativeError::NoRoots);
        }
        roots.push(files[i][0].clone());
        i = i + 1;
    }
    Ok(roots)
}

impl ClientConfig {
    /// The roots to trust: the configured files, or the platform's roots
    /// when none is configured.
    pub fn roots(&self) -> (r: Roots)
        ensures
            self.tls_roots@.len() == 0 ==> r == Roots::Native,
            self.tls_roots@.len() > 0 ==> (r matches Roots::Files(f) && f@.len() == self.tls_roots@.len() && forall|i: int|
                0 <= i < f@.len() ==> (#[trigger] f@[i])@ == self.tls_roots@[i]@),
    {
        if self.tls_roots.len() == 0 {
            return Roots::Native;
        }
        let mut files: Vec<String> = Vec::new();
        let mut i: usize = 0;
        while i < self.tls_roots.len()
            invariant
                i <= self.tls_roots@.len(),
                files@.len() == i,
                forall|k: int| 0 <= k < i ==> (#[trigger] files@[k])@ == self.tls_roots@[k]@,
            decreases self.tls_roots@.len() - i,
        {
            files.push(owned(self.tls_roots[i].as_str()));
            i = i + 1;
        }
        Roots::Files(files)
    }
}

// ---------------------------------------------------------------------------
// Fingerprints.

/// The SHA-256 digest of some bytes.
pub uninterp spec fn sha256(data: Seq<u8>) -> Seq<u8>;

/// `ring::digest::digest` with `SHA256`: the 32-byte digest of the data.
/// Inputs of 2^61 bytes or more make it panic.
#[verifier::external_body]
fn sha256_digest(data: &[u8]) -> (r: Vec<u8>)
    requires
        data@.len() < 0x2000_0000_0000_0000,
    ensures
        r@ == sha256(data@),
        r@.len() == 32,
{
    digest(&SHA256, data).as_ref().to_vec()
}

/// The lowercase hexadecimal digit of a value below 16.
pub open spec fn hex_digit(v: u8) -> char {
    if v < 10 {
        ('0' as u8 + v) as char
    } else {
        ('a' as u8 + (v - 10)) as char
    }
}

/// Bytes in lowercase hexadecimal: two digits each, the high half first.
pub open spec fn hex_lower(data: Seq<u8>) -> Seq<char> {
    Seq::new(
        2 * data.len(),
        |i: int|
            if i % 2 == 0 {
                hex_digit(data[i / 2] >> 4)
            } else {
                hex_digit(data[i / 2] & 0xf)
            },
    )
}

/// The value of a hexadecimal digit, of either case.
pub open spec fn hex_value(c: char) -> Option<u8> {
    if '0' <= c <= '9' {
        Some((c as u32 - '0' as u32) as u8)
    } else if 'a' <= c <= 'f' {
        Some((c as u32 - 'a' as u32 + 10) as u8)
    } else if 'A' <= c <= 'F' {
        Some((c as u32 - 'A' as u32 + 10) as u8)
    } else {
        None
    }
}

/// Text that reads as bytes in hexadecimal: an even number of digits.
pub open spec fn is_hex(s: Seq<char>) -> bool {
    &&& s.len() % 2 == 0
    &&& forall|i: int| 0 <= i < s.len() ==> (#[trigger] hex_value(s[i])) is Some
}

/// The bytes that hexadecimal text stands for, two digits each.
pub open spec fn hex_bytes(s: Seq<char>) -> Seq<u8> {
    Seq::new(
        s.len() / 2,
        |i: int| (hex_value(s[2 * i])->0 * 16 + hex_value(s[2 * i + 1])->0) as u8,
    )
}

/// `hex::encode`: the bytes in lowercase hexadecimal.
#[verifier::external_body]
fn hex_encode(data: &[u8]) -> (r: String)
    ensures
        r@ == hex_lower(data@),
{
    hex::encode(data)
}

/// `hex::decode` on the UTF-8 bytes of a string: the bytes it stands for,
/// when it is an even number of hexadecimal digits of either case.
#[verifier::external_body]
fn hex_decode(s: &str) -> (r: Result<Vec<u8>, FromHexError>)
    ensures
        r is Ok <==> is_hex(s@),
        r matches Ok(v) ==> v@ == hex_bytes(s@),
{
    hex::decode(s)
}

/// A character of the Unicode property White_Space.
pub open spec fn is_white_space(c: char) -> bool {
    ||| '\u{9}' <= c <= '\u{d}'
    ||| c == ' '
    ||| c == '\u{85}'
    ||| c == '\u{a0}'
    ||| c == '\u{1680}'
    ||| '\u{2000}' <= c <= '\u{200a}'
    ||| c == '\u{2028}'
    ||| c == '\u{2029}'
    ||| c == '\u{202f}'
    ||| c == '\u{205f}'
    ||| c == '\u{3000}'
}

/// The text without its leading white space.
pub open spec fn trim_start(s: Seq<char>) -> Seq<char>
    decreases s.len(),
{
    if s.len() > 0 && is_white_space(s[0]) {
        trim_start(s.drop_first())
    } else {
        s
    }
}

/// The text without its trailing white space.
pub open spec fn trim_end(s: Seq<char>) -> Seq<char>
    decreases s.len(),
{
    if s.len() > 0 && is_white_space(s.last()) {
        trim_end(s.drop_last())
    } else {
        s
    }
}

/// `str::trim`: the text without its leading and trailing white space, as
/// the Unicode property White_Space defines it.
#[verifier::external_body]
fn trim(s: &str) -> (r: &str)
    ensures
        r@ == trim_end(trim_start(s@)),
{
    s.trim()
}

/// The SHA-256 fingerprints of certificates, in lowercase hexadecimal, one
/// for the leaf of each chain.
pub fn fingerprints(leaves: &Vec<Vec<u8>>) -> (r: Vec<String>)
    requires
        forall|i: int| 0 <= i < leaves@.len() ==> (#[trigger] leaves@[i])@.len() < 0x2000_0000_0000_0000,
    ensures
        r@.len() == leaves@.len(),
        forall|i: int| 0 <= i < leaves@.len() ==> (#[trigger] r@[i])@ == hex_lower(sha256(leaves@[i]@)),
{
    let mut r: Vec<String> = Vec::new();
    let mut i: usize = 0;
    while i < leaves.len()
        invariant
            i <= leaves@.len(),
            r@.len() == i,
            forall|k: int| 0 <= k < leaves@.len() ==> (#[trigger] leaves@[k])@.len() < 0x2000_0000_0000_0000,
            forall|k: int| 0 <= k < i ==> (#[trigger] r@[k])@ == hex_lower(sha256(leaves@[k]@)),
        decreases leaves@.len() - i,
    {
        let d = sha256_digest(leaves[i].as_slice());
        r.push(hex_encode(d.as_slice()));
        i = i + 1;
    }
    r
}

/// The certificate a server presents, given which of its certificates are
/// valid for the name the client asked for: the first valid one, else the
/// first one, since a client of an unknown name is still answered.
pub fn choose_certificate(valid_for_name: &Vec<bool>) -> (r: Option<usize>)
    ensures
        valid_for_name@.len() == 0 <==> r is None,
        r matches Some(i) ==> i < valid_for_name@.len() && (valid_for_name@[i as int] || (i == 0 && forall|j: int|
            0 <= j < valid_for_name@.len() ==> !valid_for_name@[j])) && forall|j: int|
            0 <= j < i ==> !valid_for_name@[j],
{
    let mut i: usize = 0;
    while i < valid_for_name.len()
        invariant
            i <= valid_for_name@.len(),
            forall|j: int| 0 <= j < i ==> !valid_for_name@[j],
        decreases valid_for_name@.len() - i,
    {
        if valid_for_name[i] {
            return Some(i);
        }
        i = i + 1;
    }
    if valid_for_name.len() == 0 {
        None
    } else {
        Some(0)
    }
}

impl ServerConfig {
    /// The fingerprints a server publishes: those of the leaves of the
    /// loaded certificates, in the order they are configured, then that of
    /// the generated certificate's leaf when host names to generate one for
    /// are configured.
    pub fn fingerprints(&self, loaded: &Vec<Vec<u8>>, generated: &Option<Vec<u8>>) -> (r: Vec<String>)
        requires
            forall|i: int| 0 <= i < loaded@.len() ==> (#[trigger] loaded@[i])@.len() < 0x2000_0000_0000_0000,
            generated matches Some(g) ==> g@.len() < 0x2000_0000_0000_0000,
        ensures
            r@.len() == loaded@.len() + (if self.tls.generate@.len() > 0 && generated is Some { 1int } else { 0 }),
            forall|i: int| 0 <= i < loaded@.len() ==> (#[trigger] r@[i])@ == hex_lower(sha256(loaded@[i]@)),
            self.tls.generate@.len() > 0 ==> (generated matches Some(g) ==> r@[loaded@.len() as int]@ == hex_lower(
                sha256(g@),
            )),
    {
        let mut r = fingerprints(loaded);
        if self.generates_certificate() {
            match generated {
                Some(g) => {
                    let d = sha256_digest(g.as_slice());
                    r.push(hex_encode(d.as_slice()));
                },
                None => {},
            }
        }
        r
    }
}

/// Accepts a server certificate only if its SHA-256 fingerprint is the
/// expected one.
#[derive(Debug)]
pub struct FingerprintVerifier {
    pub fingerprint: Vec<u8>,
}

impl FingerprintVerifier {
    pub fn new(fingerprint: Vec<u8>) -> (r: Self)
        ensures
            r.fingerprint@ == fingerprint@,
    {
        FingerprintVerifier { fingerprint }
    }

    /// Check the server's leaf certificate against the fingerprint.
    pub fn verify_server_cert(&self, end_entity: &[u8]) -> (r: Result<(), NativeError>)
        requires
            end_entity@.len() < 0x2000_0000_0000_0000,
        ensures
            r is Ok <==> sha256(end_entity@) == self.fingerprint@,
            r is Err ==> r == Err::<(), NativeError>(NativeError::FingerprintMismatch),
    {
        let d = sha256_digest(end_entity);
        if compare_bytes(d.as_slice(), self.fingerprint.as_slice()) == PathOrder::Equal {
            Ok(())
        } else {
            Err(NativeError::FingerprintMismatch)
        }
    }
}

// ---------------------------------------------------------------------------
// Starting a connection.

/// The application protocol of WebTransport over HTTP/3.
pub const WEBTRANSPORT_ALPN: &'static str = "h3";

/// The application protocol of MoQ directly over QUIC.
pub const MOQ_ALPN: &'static str = "moql";

/// The path, on an `http` server, of its certificate's fingerprint.
pub const FINGERPRINT_PATH: &'static str = "/certificate.sha256";

/// How a session runs over a QUIC connection.
#[derive(Debug, Clone, Copy, PartialEq, Eq, Structural)]
pub enum Transport {
    /// WebTransport over HTTP/3.
    WebTransport,
    /// MoQ directly over QUIC.
    Raw,
}

/// What a client does to connect to a URL with this scheme.
#[derive(Debug, Clone, Copy, PartialEq, Eq, Structural)]
pub struct ConnectPlan {
    /// Fetch the certificate's fingerprint over plain HTTP first, and accept
    /// only that certificate; the URL is then taken as `https`.
    pub fetch_fingerprint: bool,
    /// The protocol of the session.
    pub transport: Transport,
}

/// The transport of a client's connection, by URL scheme: `http` and `https`
/// use WebTransport, `http` after fetching the fingerprint; `moql` runs MoQ
/// directly over QUIC.
pub fn connect_plan(scheme: &str) -> (r: Result<ConnectPlan, NativeError>)
    ensures
        scheme@ == "http"@ ==> r == Ok::<ConnectPlan, NativeError>(
            ConnectPlan { fetch_fingerprint: true, transport: Transport::WebTransport },
        ),
        scheme@ == "https"@ ==> r == Ok::<ConnectPlan, NativeError>(
            ConnectPlan { fetch_fingerprint: false, transport: Transport::WebTransport },
        ),
        scheme@ == "moql"@ ==> r == Ok::<ConnectPlan, NativeError>(
            ConnectPlan { fetch_fingerprint: false, transport: Transport::Raw },
        ),
        scheme@ != "http"@ && scheme@ != "https"@ && scheme@ != "moql"@ ==> r == Err::<ConnectPlan, NativeError>(
            NativeError::UnsupportedScheme,
        ),
{
    proof {
        reveal_strlit("http");
        reveal_strlit("https");
        reveal_strlit("moql");
    }
    if compare_paths(scheme, "http") == PathOrder::Equal {
        Ok(ConnectPlan { fetch_fingerprint: true, transport: Transport::WebTransport })
    } else if compare_paths(scheme, "https") == PathOrder::Equal {
        Ok(ConnectPlan { fetch_fingerprint: false, transport: Transport::WebTransport })
    } else if compare_paths(scheme, "moql") == PathOrder::Equal {
        Ok(ConnectPlan { fetch_fingerprint: false, transport: Transport::Raw })
    } else {
        Err(NativeError::UnsupportedScheme)
    }
}

/// The application protocol a client offers for a transport.
pub fn alpn(transport: Transport) -> (r: &'static str)
    ensures
        transport == Transport::WebTransport ==> r@ == WEBTRANSPORT_ALPN@,
        transport == Transport::Raw ==> r@ == MOQ_ALPN@,
{
    match transport {
        Transport::WebTransport => WEBTRANSPORT_ALPN,
        Transport::Raw => MOQ_ALPN,
    }
}

/// The host and port a client connects to: the URL's host, which it must
/// have, and its port, 443 when it names none.
pub fn connect_target(host: Option<String>, port: Option<u16>) -> (r: Result<(String, u16), NativeError>)
    ensures
        host is None ==> r == Err::<(String, u16), NativeError>(NativeError::InvalidDnsName),
        host matches Some(h) ==> (r matches Ok((rh, rp)) && rh@ == h@ && rp == match port {
            Some(p) => p,
            None => 443u16,
        }),
{
    match host {
        None => Err(NativeError::InvalidDnsName),
        Some(h) => Ok(
            (
                h,
                match port {
                    Some(p) => p,
                    None => 443,
                },
            ),
        ),
    }
}

/// The fingerprint served over HTTP: hexadecimal text, white space around
/// it ignored.
pub fn parse_fingerprint(text: &str) -> (r: Result<Vec<u8>, NativeError>)
    ensures
        r is Ok <==> is_hex(trim_end(trim_start(text@))),
        r matches Ok(v) ==> v@ == hex_bytes(trim_end(trim_start(text@))),
        r is Err ==> r == Err::<Vec<u8>, NativeError>(NativeError::InvalidFingerprint),
{
    let trimmed = trim(text);
    match hex_decode(trimmed) {
        Ok(v) => Ok(v),
        Err(_) => Err(NativeError::InvalidFingerprint),
    }
}

/// What a server does with a new connection, by the application protocol
/// the client chose.
#[derive(Debug, PartialEq, Eq)]
pub enum Accepted {
    /// Wait for the WebTransport request and accept it.
    WebTransport,
    /// Run MoQ directly over QUIC, as a session at this URL.
    Raw { url: String },
}

/// Decide how a server runs a new connection, from the application protocol
/// and the server name that the client sent.
pub fn accept_alpn(protocol: Option<Vec<u8>>, server_name: Option<String>) -> (r: Result<Accepted, NativeError>)
    ensures
        protocol is None ==> r == Err::<Accepted, NativeError>(NativeError::MissingAlpn),
        protocol matches Some(p) ==> {
            if !vstd::utf8::valid_utf8(p@) {
                r == Err::<Accepted, NativeError>(NativeError::InvalidAlpn)
            } else {
                let a = vstd::utf8::decode_utf8(p@);
                if a == WEBTRANSPORT_ALPN@ {
                    r == Ok::<Accepted, NativeError>(Accepted::WebTransport)
                } else if a == MOQ_ALPN@ {
                    r matches Ok(Accepted::Raw { url }) && url@ == "moql://"@ + match server_name {
                        Some(h) => h@,
                        None => Seq::<char>::empty(),
                    }
                } else {
                    r matches Err(NativeError::UnsupportedAlpn(got)) && got@ == a
                }
            }
        },
{
    let protocol = match protocol {
        None => return Err(NativeError::MissingAlpn),
        Some(p) => p,
    };
    let alpn = match string_from_utf8(protocol) {
        Err(_) => return Err(NativeError::InvalidAlpn),
        Ok(a) => a,
    };
    if compare_paths(alpn.as_str(), WEBTRANSPORT_ALPN) == PathOrder::Equal {
        Ok(Accepted::WebTransport)
    } else if compare_paths(alpn.as_str(), MOQ_ALPN) == PathOrder::Equal {
        let mut url = owned("moql://");
        match server_name {
            Some(h) => url.append(h.as_str()),
            None => {},
        }
        Ok(Accepted::Raw { url })
    } else {
        Err(NativeError::UnsupportedAlpn(alpn))
    }
}

} // verus!
