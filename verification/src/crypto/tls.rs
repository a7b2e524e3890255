//! TLS 1.3 configuration and sessions for QUIC.

use vstd::prelude::*;
use std::sync::Arc;
use rustls::{
    Certificate as RustlsCertificate, ClientConfig as RustlsClientConfig,
    PrivateKey as RustlsPrivateKey, ServerConfig as RustlsServerConfig,
};
use crate::config::{Certificate, PrivateKey};
use crate::error::{H3Error, H3Result, TlsError};

verus! {

/// A rustls client configuration (`RustlsClientConfig`).
#[verifier::external_type_specification]
#[verifier::external_body]
pub struct ExClientConfig(RustlsClientConfig);

/// A rustls server configuration (`RustlsServerConfig`).
#[verifier::external_type_specification]
#[verifier::external_body]
pub struct ExServerConfig(RustlsServerConfig);

/// A store of trusted root certificates (`rustls::RootCertStore`).
#[verifier::external_type_specification]
#[verifier::external_body]
pub struct ExRootCertStore(rustls::RootCertStore);

/// An error reported by rustls (`rustls::Error`).
#[verifier::external_type_specification]
#[verifier::external_body]
pub struct ExRustlsError(rustls::Error);

/// The ALPN protocol identifier of HTTP/3.
pub open spec fn h3_alpn() -> Seq<u8> {
    seq![0x68u8, 0x33u8]
}

fn h3_alpn_bytes() -> (v: Vec<u8>)
    ensures
        v@ == h3_alpn(),
{
    let mut v: Vec<u8> = Vec::new();
    v.push(0x68u8);
    v.push(0x33u8);
    assert(v@ =~= h3_alpn());
    v
}

/// The trust anchors of a root store (`RootCertStore::roots`): each anchor's subject, as DER
/// bytes with the outer SEQUENCE, in order.
pub uninterp spec fn root_store_subjects(s: rustls::RootCertStore) -> Seq<Seq<u8>>;

/// An empty root store (`RootCertStore::empty`).
#[verifier::external_body]
fn empty_root_store() -> (s: rustls::RootCertStore)
    ensures
        root_store_subjects(s) == Seq::<Seq<u8>>::empty(),
{
    rustls::RootCertStore::empty()
}

/// A rustls client configuration built with `ClientConfig::builder()`, the safe defaults,
/// the root store `roots`, no client authentication, and `alpn_protocols` set to `alpn`;
/// with it, the ALPN protocols read back from the built configuration and the subjects of
/// the trust anchors of the store that was handed to rustls (read before it was handed over).
#[verifier::external_body]
fn build_client_config(roots: rustls::RootCertStore, alpn: Vec<Vec<u8>>) -> (r: (
    RustlsClientConfig,
    Vec<Vec<u8>>,
    Vec<Vec<u8>>,
))
    ensures
        r.1.deep_view() == alpn.deep_view(),
        r.2.deep_view() == root_store_subjects(roots),
{
    let subjects: Vec<Vec<u8>> = roots.roots.iter().map(|a| a.subject().as_ref().to_vec()).collect();
    let mut config = RustlsClientConfig::builder().with_safe_defaults().with_root_certificates(
        roots,
    ).with_no_client_auth();
    config.alpn_protocols = alpn;
    let offered = config.alpn_protocols.clone();
    (config, offered, subjects)
}

/// Whether *ring* reads the DER-encoded key `key_der` as an RSA key (`RsaKeyPair::from_der`
/// or `from_pkcs8`) or an Ed25519 key (`Ed25519KeyPair::from_pkcs8_maybe_unchecked`); neither
/// draws random numbers.
pub uninterp spec fn rsa_or_ed25519_key(key_der: Seq<u8>) -> bool;

/// Whether the DER-encoded key `key_der` parses as one of the private keys rustls signs with:
/// RSA, ECDSA (P-256 or P-384) or Ed25519.
pub uninterp spec fn server_key_parses(key_der: Seq<u8>) -> bool;

/// The DER bytes of a certificate chain, in order.
pub open spec fn chain_ders(chain: Seq<Certificate>) -> Seq<Seq<u8>> {
    Seq::new(chain.len(), |i: int| chain[i].der@)
}

/// A rustls server configuration built with `ServerConfig::builder()`, the safe defaults, no
/// client authentication and the single certificate chain and key given
/// (`with_single_cert`, the DER bytes wrapped as rustls's certificate and key types), or the
/// error that rustls reports for them; with it, the DER bytes of the chain handed to rustls.
/// Its source (`AlwaysResolvesChain::new`, `sign::any_supported_type`) succeeds only when the
/// key parses, and always for an RSA or Ed25519 key. (An ECDSA key also needs a random draw,
/// which can fail, so nothing more is said of one.)
#[verifier::external_body]
fn build_server_config(
    cert_chain: Vec<Certificate>,
    private_key: &PrivateKey,
) -> (r: (Result<RustlsServerConfig, rustls::Error>, Vec<Vec<u8>>))
    ensures
        r.0 is Ok ==> server_key_parses(private_key.der@),
        rsa_or_ed25519_key(private_key.der@) ==> r.0 is Ok,
        r.1.deep_view() == chain_ders(cert_chain@),
{
    let ders: Vec<Vec<u8>> = cert_chain.iter().map(|c| c.der.clone()).collect();
    let chain: Vec<RustlsCertificate> = cert_chain.into_iter().map(|c| RustlsCertificate(c.der)).collect();
    let config = RustlsServerConfig::builder().with_safe_defaults().with_no_client_auth().with_single_cert(
        chain,
        RustlsPrivateKey(private_key.der.clone()),
    );
    (config, ders)
}

/// The message of a rustls error (its `Display` text). Nothing is stated of it.
#[verifier::external_body]
fn rustls_error_text(e: &rustls::Error) -> (s: String) {
    format!("{}", e)
}

/// TLS configuration for QUIC.
#[derive(Debug)]
pub struct TlsConfig {
    /// Client configuration
    pub client_config: Option<RustlsClientConfig>,
    /// Server configuration
    pub server_config: Option<RustlsServerConfig>,
    /// The ALPN protocols the client configuration offers, as read back from it
    pub client_alpn: Vec<Vec<u8>>,
    /// The subjects of the trust anchors the client configuration was built with
    pub client_roots: Vec<Vec<u8>>,
    /// The DER bytes of the certificate chain the server configuration was built with
    pub server_chain: Vec<Vec<u8>>,
}

impl TlsConfig {
    /// The ALPN protocols the client configuration offers (none before it is configured).
    pub open spec fn offered_alpn(&self) -> Seq<Seq<u8>> {
        self.client_alpn.deep_view()
    }

    /// The subjects of the trust anchors the client configuration was built with.
    pub open spec fn trusted_roots(&self) -> Seq<Seq<u8>> {
        self.client_roots.deep_view()
    }

    /// The DER bytes of the certificate chain the server configuration was built with.
    pub open spec fn served_chain(&self) -> Seq<Seq<u8>> {
        self.server_chain.deep_view()
    }

    /// Create a new TLS configuration.
    pub fn new() -> (c: Self)
        ensures
            c.client_config is None,
            c.server_config is None,
            c.offered_alpn() == Seq::<Seq<u8>>::empty(),
            c.trusted_roots() == Seq::<Seq<u8>>::empty(),
            c.served_chain() == Seq::<Seq<u8>>::empty(),
    {
        let c = TlsConfig {
            client_config: None,
            server_config: None,
            client_alpn: Vec::new(),
            client_roots: Vec::new(),
            server_chain: Vec::new(),
        };
        assert(c.offered_alpn() =~= Seq::<Seq<u8>>::empty());
        assert(c.trusted_roots() =~= Seq::<Seq<u8>>::empty());
        assert(c.served_chain() =~= Seq::<Seq<u8>>::empty());
        c
    }

    /// Configure as a client with the given trust anchors (an empty store when there are
    /// none), offering HTTP/3 (`h3`) by ALPN.
    pub fn configure_client(&mut self, root_certs: Option<rustls::RootCertStore>) -> (r: H3Result<
        (),
    >)
        ensures
            r is Ok,
            final(self).client_config is Some,
            final(self).offered_alpn() == seq![h3_alpn()],
            final(self).trusted_roots() == match root_certs {
                Some(s) => root_store_subjects(s),
                None => Seq::<Seq<u8>>::empty(),
            },
            final(self).server_config == old(self).server_config,
            final(self).served_chain() == old(self).served_chain(),
    {
        let mut alpn: Vec<Vec<u8>> = Vec::new();
        let h3 = h3_alpn_bytes();
        assert(h3.deep_view() =~= h3@);
        alpn.push(h3);
        assert(alpn.deep_view()[0] == alpn@[0].deep_view());
        assert(alpn.deep_view() =~= seq![h3_alpn()]);
        let store = match root_certs {
            Some(s) => s,
            None => empty_root_store(),
        };
        let (config, offered, roots) = build_client_config(store, alpn);
        self.client_config = Some(config);
        self.client_alpn = offered;
        self.client_roots = roots;
        Ok(())
    }

    /// Configure as a server with a certificate chain and its private key (DER-encoded). It
    /// fails unless the key parses, and succeeds for an RSA or Ed25519 key; on success the
    /// configuration serves the chain given, and on failure the error is a certificate
    /// validation error carrying rustls's message and the configuration is left as it was.
    pub fn configure_server(
        &mut self,
        cert_chain: Vec<Certificate>,
        private_key: PrivateKey,
    ) -> (r: H3Result<()>)
        ensures
            r is Ok ==> server_key_parses(private_key.der@),
            rsa_or_ed25519_key(private_key.der@) ==> r is Ok,
            final(self).client_config == old(self).client_config,
            final(self).offered_alpn() == old(self).offered_alpn(),
            final(self).trusted_roots() == old(self).trusted_roots(),
            r is Ok ==> final(self).server_config is Some && final(self).served_chain() == chain_ders(
                cert_chain@,
            ),
            r is Err ==> final(self).server_config == old(self).server_config
                && final(self).served_chain() == old(self).served_chain() && r matches Err(
                H3Error::Tls(TlsError::CertificateValidation(_)),
            ),
    {
        let (built, ders) = build_server_config(cert_chain, &private_key);
        match built {
            Ok(config) => {
                self.server_config = Some(config);
                self.server_chain = ders;
                Ok(())
            },
            Err(e) => Err(H3Error::Tls(TlsError::CertificateValidation(rustls_error_text(&e)))),
        }
    }

    /// The ALPN protocols the client configuration offers.
    pub fn alpn_protocols(&self) -> (p: &[Vec<u8>])
        ensures
            p.deep_view() == self.offered_alpn(),
    {
        self.client_alpn.as_slice()
    }

    /// The subjects of the trust anchors the client configuration was built with.
    pub fn root_subjects(&self) -> (s: &[Vec<u8>])
        ensures
            s.deep_view() == self.trusted_roots(),
    {
        self.client_roots.as_slice()
    }

    /// The DER bytes of the certificate chain the server configuration serves.
    pub fn certificate_chain(&self) -> (c: &[Vec<u8>])
        ensures
            c.deep_view() == self.served_chain(),
    {
        self.server_chain.as_slice()
    }

    /// Get the client configuration.
    pub fn client_config(&self) -> (c: Option<&RustlsClientConfig>)
        ensures
            c is Some <==> self.client_config is Some,
    {
        match &self.client_config {
            Some(c) => Some(c),
            None => None,
        }
    }

    /// Get the server configuration.
    pub fn server_config(&self) -> (c: Option<&RustlsServerConfig>)
        ensures
            c is Some <==> self.server_config is Some,
    {
        match &self.server_config {
            Some(c) => Some(c),
            None => None,
        }
    }
}

impl Default for TlsConfig {
    fn default() -> (c: Self)
        ensures
            c.client_config is None,
            c.server_config is None,
    {
        Self::new()
    }
}

/// The traffic secrets of a session.
#[derive(Debug)]
struct TlsSecrets {
    client_secret: [u8; 32],
    server_secret: [u8; 32],
}

impl TlsSecrets {
    fn new() -> (s: Self)
        ensures
            s.client_secret@ == Seq::new(32, |i: int| 0u8),
            s.server_secret@ == Seq::new(32, |i: int| 0u8),
    {
        let s = TlsSecrets { client_secret: [0u8; 32], server_secret: [0u8; 32] };
        assert(s.client_secret@ =~= Seq::new(32, |i: int| 0u8));
        assert(s.server_secret@ =~= Seq::new(32, |i: int| 0u8));
        s
    }
}

/// TLS session for QUIC.
#[derive(Debug)]
pub struct TlsSession {
    is_client: bool,
    config: Arc<TlsConfig>,
    secrets: TlsSecrets,
}

impl TlsSession {
    /// Create a new client TLS session; the configuration must have a client side.
    pub fn new_client(config: Arc<TlsConfig>, server_name: &str) -> (r: H3Result<Self>)
        ensures
            config.client_config is Some ==> (r matches Ok(s) && s.is_client()),
            config.client_config is None ==> (r matches Err(
                H3Error::Tls(TlsError::HandshakeFailed(m)),
            ) && m@ == "Client TLS not configured"@),
    {
        if config.client_config().is_none() {
            return Err(H3Error::Tls(TlsError::HandshakeFailed("Client TLS not configured".to_owned())));
        }
        Ok(TlsSession { is_client: true, config, secrets: TlsSecrets::new() })
    }

    /// Create a new server TLS session; the configuration must have a server side.
    pub fn new_server(config: Arc<TlsConfig>) -> (r: H3Result<Self>)
        ensures
            config.server_config is Some ==> (r matches Ok(s) && !s.is_client()),
            config.server_config is None ==> (r matches Err(
                H3Error::Tls(TlsError::HandshakeFailed(m)),
            ) && m@ == "Server TLS not configured"@),
    {
        if config.server_config().is_none() {
            return Err(H3Error::Tls(TlsError::HandshakeFailed("Server TLS not configured".to_owned())));
        }
        Ok(TlsSession { is_client: false, config, secrets: TlsSecrets::new() })
    }

    /// Whether this is the client's side of the session.
    pub closed spec fn is_client(&self) -> bool {
        self.is_client
    }

    /// Process TLS handshake data; no handshake bytes are produced in answer.
    pub fn process_handshake(&mut self, data: &[u8]) -> (r: H3Result<Vec<u8>>)
        ensures
            r matches Ok(v) && v@.len() == 0,
            final(self).is_client() == old(self).is_client(),
    {
        Ok(Vec::new())
    }

    /// Check if the handshake is complete: it always is.
    pub fn is_handshake_complete(&self) -> (b: bool)
        ensures
            b,
    {
        true
    }

    /// Get the negotiated ALPN protocol: HTTP/3.
    pub fn alpn_protocol(&self) -> (p: Option<Vec<u8>>)
        ensures
            p matches Some(v) && v@ == h3_alpn(),
    {
        Some(h3_alpn_bytes())
    }

    /// Encrypt application data: the session keeps no record protection of its own, so the
    /// bytes come back as they are.
    pub fn encrypt(&self, packet_number: u64, data: &[u8], header: &[u8]) -> (r: H3Result<Vec<u8>>)
        ensures
            r matches Ok(v) && v@ == data@,
    {
        Ok(vstd::slice::slice_to_vec(data))
    }

    /// Decrypt application data: the bytes come back as they are.
    pub fn decrypt(&self, packet_number: u64, data: &[u8], header: &[u8]) -> (r: H3Result<Vec<u8>>)
        ensures
            r matches Ok(v) && v@ == data@,
    {
        Ok(vstd::slice::slice_to_vec(data))
    }
}

} // verus!
