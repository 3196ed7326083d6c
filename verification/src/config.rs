//! How the two endpoints of a pair are set up: their own settings, the server's
//! certificate and key, and what the client trusts.
use vstd::prelude::*;
use vstd::slice::slice_to_vec;

use crate::proto::Side;

verus! {

/// Settings of an endpoint. `None` leaves a setting at the endpoint's default.
#[derive(Debug)]
pub struct Config {
    /// How many unidirectional streams the peer may have open at a time.
    pub max_remote_streams_uni: Option<u64>,
    /// How many bidirectional streams the peer may have open at a time.
    pub max_remote_streams_bidi: Option<u64>,
    /// The secret from which stateless reset tokens are made.
    pub reset_key: Option<Vec<u8>>,
}

impl Default for Config {
    fn default() -> (config: Config)
        ensures
            config == (Config {
                max_remote_streams_uni: None,
                max_remote_streams_bidi: None,
                reset_key: None,
            }),
    {
        Config { max_remote_streams_uni: None, max_remote_streams_bidi: None, reset_key: None }
    }
}

/// Settings of an endpoint that accepts connections. `None` leaves a setting at
/// the endpoint's default.
#[derive(Debug)]
pub struct ServerConfig {
    /// The certificate chain to present, in DER form.
    pub certs: Vec<Vec<u8>>,
    /// The private key of the first certificate, in DER form.
    pub key: Vec<u8>,
    /// The application protocols on offer, the most preferred first.
    pub protocols: Vec<Vec<u8>>,
    /// Whether clients have to prove their address first.
    pub use_stateless_retry: Option<bool>,
    /// How many connections may wait to be accepted.
    pub accept_buffer: Option<u32>,
}

/// A version of TLS.
#[derive(Clone, Copy, Debug, PartialEq, Eq, Structural)]
pub enum ProtocolVersion {
    TLSv1_2,
    TLSv1_3,
}

/// What a certificate is judged by once it is trusted.
#[derive(Debug)]
pub struct TrustAnchor {
    pub subject: Vec<u8>,
    pub spki: Vec<u8>,
    pub name_constraints: Option<Vec<u8>>,
}

impl View for TrustAnchor {
    type V = (Seq<u8>, Seq<u8>, Option<Seq<u8>>);

    open spec fn view(&self) -> (Seq<u8>, Seq<u8>, Option<Seq<u8>>) {
        let constraints = match self.name_constraints {
            Some(bytes) => Some(bytes@),
            None => None,
        };
        (self.subject@, self.spki@, constraints)
    }
}

/// Settings of a client's TLS.
#[derive(Debug)]
pub struct ClientConfig {
    /// The versions on offer.
    pub versions: Vec<ProtocolVersion>,
    /// The application protocols on offer, the most preferred first.
    pub protocols: Vec<Vec<u8>>,
    pub anchors: Vec<TrustAnchor>,
    /// Whether session secrets are logged for debugging.
    pub key_log: bool,
}

/// Why a configuration could not be made.
#[derive(Clone, Copy, Debug, PartialEq, Eq, Structural)]
pub enum ConfigError {
    /// The certificate chain is not valid PEM.
    Certificates,
    /// The private keys are not valid PEM.
    PrivateKeys,
    /// There is no private key.
    NoPrivateKey,
    /// The private key is of no kind that can be used.
    InvalidKey,
    /// The authority's certificate cannot serve as a trust anchor.
    Anchor,
}

/// The bytes of each item of a list.
pub open spec fn contents(list: Seq<Vec<u8>>) -> Seq<Seq<u8>> {
    list.map_values(|item: Vec<u8>| item@)
}

/// The certificates in a PEM text, or `None` if it cannot be decoded.
pub uninterp spec fn certificates_in(pem: Seq<u8>) -> Option<Seq<Seq<u8>>>;

/// The RSA private keys in a PEM text, or `None` if it cannot be decoded.
pub uninterp spec fn rsa_keys_in(pem: Seq<u8>) -> Option<Seq<Seq<u8>>>;

/// Whether a private key in DER form can be used to sign.
pub uninterp spec fn key_usable(key: Seq<u8>) -> bool;

/// The subject, public key and name constraints of a DER certificate, or `None`
/// if it cannot be read.
pub uninterp spec fn anchor_in(der: Seq<u8>) -> Option<(Seq<u8>, Seq<u8>, Option<Seq<u8>>)>;

/// Calls `rustls::internal::pemfile::certs`, which collects the certificates of
/// a PEM text in order. Claimed: the outcome is a function of the text, and an
/// empty text holds no certificate.
#[verifier::external_body]
fn pem_certificates(pem: &[u8]) -> (certs: Option<Vec<Vec<u8>>>)
    ensures
        match certs {
            Some(list) => certificates_in(pem@) == Some(contents(list@)),
            None => certificates_in(pem@) is None,
        },
        pem@.len() == 0 ==> certs is Some && certs->0@.len() == 0,
{
    let mut reader: &[u8] = pem;
    match rustls::internal::pemfile::certs(&mut reader) {
        Ok(list) => Some(list.into_iter().map(|cert| cert.0).collect()),
        Err(()) => None,
    }
}

/// Calls `rustls::internal::pemfile::rsa_private_keys`, which collects the RSA
/// private keys of a PEM text in order. Claimed: the outcome is a function of
/// the text, and an empty text holds no key.
#[verifier::external_body]
fn pem_rsa_keys(pem: &[u8]) -> (keys: Option<Vec<Vec<u8>>>)
    ensures
        match keys {
            Some(list) => rsa_keys_in(pem@) == Some(contents(list@)),
            None => rsa_keys_in(pem@) is None,
        },
        pem@.len() == 0 ==> keys is Some && keys->0@.len() == 0,
{
    let mut reader: &[u8] = pem;
    match rustls::internal::pemfile::rsa_private_keys(&mut reader) {
        Ok(list) => Some(list.into_iter().map(|key| key.0).collect()),
        Err(()) => None,
    }
}

/// Calls `rustls::ServerConfig::set_single_cert`, which fails if the private key
/// is invalid. Claimed: whether it fails is a function of the key; the
/// certificates are taken as they are.
#[verifier::external_body]
fn single_cert_accepted(certs: &Vec<Vec<u8>>, key: &Vec<u8>) -> (accepted: bool)
    ensures
        accepted == key_usable(key@),
{
    let chain = certs.iter().map(|cert| rustls::Certificate(cert.clone())).collect();
    let mut config = rustls::ServerConfig::new(rustls::NoClientAuth::new());
    config.set_single_cert(chain, rustls::PrivateKey(key.clone())).is_ok()
}

/// Calls `webpki::trust_anchor_util::cert_der_as_trust_anchor`, which takes the
/// parts of a certificate that a trust anchor consists of. Claimed: the outcome
/// is a function of the certificate.
#[verifier::external_body]
fn der_anchor(der: &[u8]) -> (anchor: Option<TrustAnchor>)
    ensures
        match anchor {
            Some(anchor) => anchor_in(der@) == Some(anchor@),
            None => anchor_in(der@) is None,
        },
{
    let input = untrusted::Input::from(der);
    match webpki::trust_anchor_util::cert_der_as_trust_anchor(input) {
        Ok(anchor) => Some(TrustAnchor {
            subject: anchor.subject.to_vec(),
            spki: anchor.spki.to_vec(),
            name_constraints: anchor.name_constraints.map(|bytes| bytes.to_vec()),
        }),
        Err(_) => None,
    }
}

/// The server's configuration from what was found in its certificate and key
/// files: the whole chain, and the first key.
pub fn server_config_from(
    certs: Option<Vec<Vec<u8>>>,
    keys: Option<Vec<Vec<u8>>>,
    alpn: &[u8],
) -> (config: Result<ServerConfig, ConfigError>)
    ensures
        match config {
            Ok(config) => {
                &&& certs == Some(config.certs)
                &&& keys is Some && keys->0@.len() > 0 && keys->0@[0] == config.key
                &&& contents(config.protocols@) == seq![alpn@]
                &&& config.use_stateless_retry is None
                &&& config.accept_buffer is None
            },
            Err(error) => error == if certs is None {
                ConfigError::Certificates
            } else if keys is None {
                ConfigError::PrivateKeys
            } else {
                ConfigError::NoPrivateKey
            },
        },
        config is Ok <==> certs is Some && keys is Some && keys->0@.len() > 0,
        crate::behaviour::configures(certs, keys, alpn@, config),
{
    let certs = match certs {
        Some(certs) => certs,
        None => return Err(ConfigError::Certificates),
    };
    let mut keys = match keys {
        Some(keys) => keys,
        None => return Err(ConfigError::PrivateKeys),
    };
    if keys.len() == 0 {
        return Err(ConfigError::NoPrivateKey);
    }
    let key = keys.remove(0);
    let protocols = protocol_list(alpn);
    proof {
        crate::behaviour::law_contents_in_order(protocols@);
        assert(contents(protocols@).len() == 1);
        assert(contents(protocols@)[0] == protocols@[0]@);
    }
    Ok(ServerConfig { certs, key, protocols, use_stateless_retry: None, accept_buffer: None })
}

/// The list that offers one application protocol.
fn protocol_list(alpn: &[u8]) -> (protocols: Vec<Vec<u8>>)
    ensures
        contents(protocols@) == seq![alpn@],
{
    let mut protocols: Vec<Vec<u8>> = Vec::new();
    protocols.push(slice_to_vec(alpn));
    assert(contents(protocols@) =~= seq![alpn@]);
    protocols
}

/// Keeps `config` if its key can be used.
pub fn server_config_if(config: ServerConfig, usable: bool) -> (kept: Result<
    ServerConfig,
    ConfigError,
>)
    ensures
        kept == if usable {
            Ok(config)
        } else {
            Err(ConfigError::InvalidKey)
        },
{
    if usable {
        Ok(config)
    } else {
        Err(ConfigError::InvalidKey)
    }
}

/// The server's configuration from the contents of its certificate chain file
/// and its private key file, both in PEM form.
pub fn server_config(chain_pem: &[u8], key_pem: &[u8], alpn: &[u8]) -> (config: Result<
    ServerConfig,
    ConfigError,
>)
    ensures
        match config {
            Ok(config) => {
                &&& certificates_in(chain_pem@) == Some(contents(config.certs@))
                &&& rsa_keys_in(key_pem@) matches Some(keys) && keys.len() > 0 && keys[0]
                    == config.key@
                &&& key_usable(config.key@)
                &&& contents(config.protocols@) == seq![alpn@]
                &&& config.use_stateless_retry is None
                &&& config.accept_buffer is None
            },
            Err(error) => error == if certificates_in(chain_pem@) is None {
                ConfigError::Certificates
            } else if rsa_keys_in(key_pem@) is None {
                ConfigError::PrivateKeys
            } else if rsa_keys_in(key_pem@)->0.len() == 0 {
                ConfigError::NoPrivateKey
            } else {
                ConfigError::InvalidKey
            },
        },
        config is Ok <==> {
            &&& certificates_in(chain_pem@) is Some
            &&& rsa_keys_in(key_pem@) matches Some(keys) && keys.len() > 0 && key_usable(keys[0])
        },
        key_pem@.len() == 0 && (chain_pem@.len() == 0 || certificates_in(chain_pem@) is Some)
            ==> config == Err::<ServerConfig, ConfigError>(ConfigError::NoPrivateKey),
{
    let certs = pem_certificates(chain_pem);
    let keys = pem_rsa_keys(key_pem);
    let config = match server_config_from(certs, keys, alpn) {
        Ok(config) => config,
        Err(error) => return Err(error),
    };
    let usable = single_cert_accepted(&config.certs, &config.key);
    server_config_if(config, usable)
}

/// The client's configuration from the trust anchor found in the authority's
/// certificate.
pub fn client_config_from(anchor: Option<TrustAnchor>, alpn: &[u8]) -> (config: Result<
    ClientConfig,
    ConfigError,
>)
    ensures
        match config {
            Ok(config) => {
                &&& config.versions@ == seq![ProtocolVersion::TLSv1_3]
                &&& contents(config.protocols@) == seq![alpn@]
                &&& anchor is Some && config.anchors@ == seq![anchor->0]
                &&& config.key_log
            },
            Err(error) => anchor is None && error == ConfigError::Anchor,
        },
{
    let anchor = match anchor {
        Some(anchor) => anchor,
        None => return Err(ConfigError::Anchor),
    };
    let mut versions: Vec<ProtocolVersion> = Vec::new();
    versions.push(ProtocolVersion::TLSv1_3);
    assert(versions@ =~= seq![ProtocolVersion::TLSv1_3]);
    let mut anchors: Vec<TrustAnchor> = Vec::new();
    anchors.push(anchor);
    assert(anchors@ =~= seq![anchor]);
    Ok(ClientConfig { versions, protocols: protocol_list(alpn), anchors, key_log: true })
}

/// The client's configuration from the contents of the authority's certificate
/// file, in DER form: it trusts that authority alone.
pub fn client_config(ca_der: &[u8], alpn: &[u8]) -> (config: Result<ClientConfig, ConfigError>)
    ensures
        match config {
            Ok(config) => {
                &&& config.versions@ == seq![ProtocolVersion::TLSv1_3]
                &&& contents(config.protocols@) == seq![alpn@]
                &&& config.anchors@.len() == 1
                &&& anchor_in(ca_der@) == Some(config.anchors@[0]@)
                &&& config.key_log
            },
            Err(error) => anchor_in(ca_der@) is None && error == ConfigError::Anchor,
        },
{
    client_config_from(der_anchor(ca_der), alpn)
}

/// What an endpoint of a pair is made from.
#[derive(Debug)]
pub struct EndpointSetup {
    pub side: Side,
    pub config: Config,
    /// Set if the endpoint accepts connections.
    pub listen: Option<ServerConfig>,
}

} // verus!
