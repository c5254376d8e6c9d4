//! Setting up TLS: the trust root, the client certificate chain and the
//! private key, read from PEM text, and the session configuration built from
//! them. Reading the files is the caller's.
use crate::error::Error;
use vstd::prelude::*;
use vstd::slice::slice_subrange;
use vstd::string::StringExecFns;

verus! {

#[verifier::external_type_specification]
#[verifier::external_body]
pub struct ExClientConfig(rustls::ClientConfig);

/// The kind of a recognised PEM section.
#[derive(Clone, Copy, Debug, PartialEq, Eq, Structural)]
pub enum PemKind {
    Certificate,
    RsaKey,
    Pkcs8Key,
}

/// What `rustls_pemfile::certs` makes of a PEM text: the DER of each
/// certificate section in order, or `None` where the text is malformed.
pub uninterp spec fn pem_certs_of(data: Seq<u8>) -> Option<Seq<Seq<u8>>>;

/// What `rustls_pemfile::read_one` makes of a PEM text: `None` where it is
/// malformed, `Some(None)` where no recognised section is left, else the
/// first section's kind and DER and how many bytes follow it.
pub uninterp spec fn pem_next_of(data: Seq<u8>) -> Option<Option<(PemKind, Seq<u8>, nat)>>;

/// Whether `RootCertStore::add` accepts a DER certificate as a trust anchor.
pub uninterp spec fn root_cert_ok(der: Seq<u8>) -> bool;

/// Whether a private key is one `ClientConfig::set_single_client_cert` can
/// use: a well-formed RSA, ECDSA or Ed25519 key. A key it accepted is such a
/// key; it may still refuse one (ECDSA keys draw on the system's random
/// number generator), so nothing is promised the other way.
pub uninterp spec fn private_key_ok(key: Seq<u8>) -> bool;

/// The DER certificates handed to a configuration's root store, in order.
pub uninterp spec fn config_roots(c: rustls::ClientConfig) -> Seq<Seq<u8>>;

/// The client certificate chain and private key a configuration presents,
/// where one was set.
pub uninterp spec fn config_client_auth(c: rustls::ClientConfig) -> Option<(Seq<Seq<u8>>, Seq<u8>)>;

/// The DER bytes of each certificate of a list.
pub open spec fn ders(v: Seq<Vec<u8>>) -> Seq<Seq<u8>> {
    v.map_values(|d: Vec<u8>| d@)
}

/// Relies on `rustls_pemfile::certs`, read from the bytes of a PEM text: it
/// returns the certificate sections' DER or fails, and depends on the bytes
/// alone.
#[verifier::external_body]
fn pem_certs(data: &[u8]) -> (r: Result<Vec<Vec<u8>>, String>)
    ensures
        r is Ok <==> pem_certs_of(data@) is Some,
        r matches Ok(v) ==> pem_certs_of(data@) == Some(ders(v@)),
{
    let mut rd: &[u8] = data;
    rustls_pemfile::certs(&mut rd).map_err(|e| e.to_string())
}

/// Relies on `rustls_pemfile::read_one`, read from the bytes of a PEM text: it
/// returns the next recognised section, or none, or fails, and depends on the
/// bytes alone. A section it returns ends with a line it consumed, so fewer
/// bytes follow it than the text holds.
#[verifier::external_body]
fn pem_read_one(data: &[u8]) -> (r: Result<Option<(PemKind, Vec<u8>, usize)>, String>)
    ensures
        r is Err ==> pem_next_of(data@) is None,
        r matches Ok(None) ==> pem_next_of(data@) == Some(None::<(PemKind, Seq<u8>, nat)>),
        r matches Ok(Some((k, d, rest))) ==> pem_next_of(data@) == Some(Some((k, d@, rest as nat)))
            && rest < data@.len(),
{
    let mut rd: &[u8] = data;
    match rustls_pemfile::read_one(&mut rd) {
        Ok(Some(rustls_pemfile::Item::X509Certificate(d))) => Ok(Some((PemKind::Certificate, d, rd.len()))),
        Ok(Some(rustls_pemfile::Item::RSAKey(d))) => Ok(Some((PemKind::RsaKey, d, rd.len()))),
        Ok(Some(rustls_pemfile::Item::PKCS8Key(d))) => Ok(Some((PemKind::Pkcs8Key, d, rd.len()))),
        Ok(None) => Ok(None),
        Err(e) => Err(e.to_string()),
    }
}

/// Relies on `ClientConfig::new`: a configuration with an empty root store
/// and no client certificate.
#[verifier::external_body]
fn new_client_config() -> (r: rustls::ClientConfig)
    ensures
        config_roots(r) == Seq::<Seq<u8>>::empty(),
        config_client_auth(r) is None,
{
    rustls::ClientConfig::new()
}

/// Relies on `RootCertStore::add` on the configuration's root store: it
/// accepts or refuses the DER certificate, by the certificate alone, and adds
/// it where it accepts it. The client certificate is left as it was.
#[verifier::external_body]
fn add_root_cert(config: &mut rustls::ClientConfig, der: Vec<u8>) -> (r: Result<(), String>)
    ensures
        r is Ok <==> root_cert_ok(der@),
        r is Ok ==> config_roots(*final(config)) == config_roots(*old(config)).push(der@),
        r is Err ==> config_roots(*final(config)) == config_roots(*old(config)),
        config_client_auth(*final(config)) == config_client_auth(*old(config)),
{
    config.root_store.add(&rustls::Certificate(der)).map_err(|e| e.to_string())
}

/// Relies on `ClientConfig::set_single_client_cert`: a key it accepts is a
/// usable key, and the configuration then presents the chain and that key;
/// where it refuses, the configuration is left as it was. The root store is
/// not touched.
#[verifier::external_body]
fn set_client_cert(config: &mut rustls::ClientConfig, chain: Vec<Vec<u8>>, key: Vec<u8>) -> (r: Result<(), String>)
    ensures
        r is Ok ==> private_key_ok(key@) && config_client_auth(*final(config)) == Some(
            (ders(chain@), key@),
        ),
        r is Err ==> config_client_auth(*final(config)) == config_client_auth(*old(config)),
        config_roots(*final(config)) == config_roots(*old(config)),
{
    let chain = chain.into_iter().map(rustls::Certificate).collect();
    config.set_single_client_cert(chain, rustls::PrivateKey(key)).map_err(|e| e.to_string())
}

fn join(a: &str, b: &str) -> (r: String)
    ensures
        r@ == a@ + b@,
{
    a.to_owned().concat(b)
}

/// Whether `s` begins with `p`.
pub open spec fn starts_with(s: Seq<char>, p: Seq<char>) -> bool {
    p.len() <= s.len() && s.take(p.len() as int) == p
}

/// The text of a CA file that holds no certificate.
pub open spec fn ca_empty_text(file: Seq<char>) -> Seq<char> {
    "Certificate file ("@ + file + ") probably empty"@
}

/// How the text of a CA file that cannot be read as PEM begins.
pub open spec fn ca_load_prefix(file: Seq<char>) -> Seq<char> {
    "Fail to load CACert file ("@ + file + "): "@
}

/// How the text of a CA certificate refused as a trust root begins.
pub open spec fn ca_format_prefix() -> Seq<char> {
    "Certificate format error: "@
}

/// How the text of a client certificate file that cannot be read as PEM
/// begins.
pub open spec fn cert_load_prefix(file: Seq<char>) -> Seq<char> {
    "Fail to load client cert file ("@ + file + "): "@
}

/// How the text of a key file that cannot be read as PEM begins.
pub open spec fn key_load_prefix(file: Seq<char>) -> Seq<char> {
    "Fail to load key file ("@ + file + "): "@
}

/// The text of a missing key.
pub open spec fn key_not_found() -> Seq<char> {
    seq!['K', 'e', 'y', ' ', 'n', 'o', 't', ' ', 'f', 'o', 'u', 'n', 'd']
}

/// The first certificate of a CA file: the trust root of the session.
pub fn first_ca_cert(ca_file: &str, pem: &[u8]) -> (r: Result<Vec<u8>, Error>)
    ensures
        match pem_certs_of(pem@) {
            None => r matches Err(Error::CACert(s)) && starts_with(s@, ca_load_prefix(ca_file@)),
            Some(cs) => if cs.len() == 0 {
                r matches Err(Error::CACert(s)) && s@ == ca_empty_text(ca_file@)
            } else {
                r matches Ok(d) && d@ == cs[0]
            },
        },
{
    match pem_certs(pem) {
        Ok(certs) => {
            let mut certs = certs;
            if certs.len() == 0 {
                let m = join(join("Certificate file (", ca_file).as_str(), ") probably empty");
                Err(Error::CACert(m))
            } else {
                Ok(certs.swap_remove(0))
            }
        },
        Err(e) => {
            let p = join(join("Fail to load CACert file (", ca_file).as_str(), "): ");
            let m = join(p.as_str(), e.as_str());
            assert(m@.take(p@.len() as int) =~= p@);
            Err(Error::CACert(m))
        },
    }
}

/// Looks for a private key among the sections of a PEM text: the first RSA or
/// PKCS8 key, other sections skipped; `Some(None)` where there is none,
/// `None` where the text is malformed before one is found.
pub open spec fn key_search(data: Seq<u8>, fuel: nat) -> Option<Option<Seq<u8>>>
    decreases fuel,
{
    if fuel == 0 {
        Some(None)
    } else {
        match pem_next_of(data) {
            None => None,
            Some(None) => Some(None),
            Some(Some((k, der, rest))) => if k == PemKind::RsaKey || k == PemKind::Pkcs8Key {
                Some(Some(der))
            } else {
                key_search(data.skip(data.len() - rest), (fuel - 1) as nat)
            },
        }
    }
}

/// The private key of a PEM text, as [`key_search`] finds it.
pub open spec fn first_key(data: Seq<u8>) -> Option<Option<Seq<u8>>> {
    key_search(data, data.len() + 1)
}

/// Reads the private key of a key file: the first RSA or PKCS8 key.
pub fn load_private_key(key_file: &str, pem: &[u8]) -> (r: Result<Vec<u8>, Error>)
    ensures
        match first_key(pem@) {
            None => r matches Err(Error::Key(s)) && starts_with(s@, key_load_prefix(key_file@)),
            Some(None) => r matches Err(Error::Key(s)) && s@ == key_not_found(),
            Some(Some(k)) => r matches Ok(d) && d@ == k,
        },
{
    let mut pos: usize = 0;
    let ghost mut fuel: nat = (pem@.len() + 1) as nat;
    assert(pem@.skip(0) =~= pem@);
    loop
        invariant
            pos <= pem@.len(),
            fuel >= pem@.len() - pos + 1,
            first_key(pem@) == key_search(pem@.skip(pos as int), fuel),
        decreases pem@.len() - pos,
    {
        let rest = slice_subrange(pem, pos, pem.len());
        assert(rest@ =~= pem@.skip(pos as int));
        match pem_read_one(rest) {
            Err(e) => {
                let p = join(join("Fail to load key file (", key_file).as_str(), "): ");
                let m = join(p.as_str(), e.as_str());
                assert(m@.take(p@.len() as int) =~= p@);
                return Err(Error::Key(m));
            },
            Ok(None) => {
                proof {
                    reveal_strlit("Key not found");
                }
                let s = "Key not found";
                assert(s@ =~= key_not_found());
                return Err(Error::Key(s.to_owned()));
            },
            Ok(Some((kind, der, left))) => {
                if kind == PemKind::RsaKey || kind == PemKind::Pkcs8Key {
                    return Ok(der);
                }
                let next = pem.len() - left;
                proof {
                    assert(pem@.skip(next as int) =~= rest@.skip(rest@.len() - left));
                    fuel = (fuel - 1) as nat;
                }
                pos = next;
            },
        }
    }
}

/// Builds the session configuration: the first certificate of the CA text as
/// its only trust root, then the certificate chain of the client text with
/// the private key of the key text. Which step failed shows in the error.
pub fn client_config(
    ca_file: &str,
    ca_pem: &[u8],
    cert_file: &str,
    cert_pem: &[u8],
    key_file: &str,
    key_pem: &[u8],
) -> (r: Result<rustls::ClientConfig, Error>)
    ensures
        match pem_certs_of(ca_pem@) {
            None => r matches Err(Error::CACert(s)) && starts_with(s@, ca_load_prefix(ca_file@)),
            Some(cs) => if cs.len() == 0 {
                r matches Err(Error::CACert(s)) && s@ == ca_empty_text(ca_file@)
            } else if !root_cert_ok(cs[0]) {
                r matches Err(Error::CACert(s)) && starts_with(s@, ca_format_prefix())
            } else {
                match pem_certs_of(cert_pem@) {
                    None => r matches Err(Error::Key(s)) && starts_with(
                        s@,
                        cert_load_prefix(cert_file@),
                    ),
                    Some(chain) => match first_key(key_pem@) {
                        None => r matches Err(Error::Key(s)) && starts_with(
                            s@,
                            key_load_prefix(key_file@),
                        ),
                        Some(None) => r matches Err(Error::Key(s)) && s@ == key_not_found(),
                        Some(Some(k)) => match r {
                            Ok(c) => private_key_ok(k) && config_roots(c) == seq![cs[0]]
                                && config_client_auth(c) == Some((chain, k)),
                            Err(e) => e is Tls,
                        },
                    },
                }
            },
        },
{
    let mut config = new_client_config();
    let root = first_ca_cert(ca_file, ca_pem)?;
    match add_root_cert(&mut config, root) {
        Ok(()) => {},
        Err(e) => {
            let p = "Certificate format error: ";
            let m = join(p, e.as_str());
            assert(m@.take(p@.len() as int) =~= p@);
            return Err(Error::CACert(m));
        },
    }
    assert(config_roots(config) =~= seq![root@]);
    let chain = match pem_certs(cert_pem) {
        Ok(c) => c,
        Err(e) => {
            let p = join(join("Fail to load client cert file (", cert_file).as_str(), "): ");
            let m = join(p.as_str(), e.as_str());
            assert(m@.take(p@.len() as int) =~= p@);
            return Err(Error::Key(m));
        },
    };
    let key = load_private_key(key_file, key_pem)?;
    match set_client_cert(&mut config, chain, key) {
        Ok(()) => Ok(config),
        Err(e) => Err(Error::Tls(e)),
    }
}

} // verus!
