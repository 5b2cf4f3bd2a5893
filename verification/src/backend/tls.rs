//! The server's TLS material: the certificates and the private key that
//! the PEM texts of its certificate and key files hold.

use vstd::prelude::*;

verus! {

/// The DER bytes of each certificate section of a PEM text, in order;
/// `None` where reading the text fails before its end.
pub uninterp spec fn pem_certificates(pem: Seq<u8>) -> Option<Seq<Seq<u8>>>;

/// The first PKCS#8 private key section of a PEM text: `None` where reading
/// the text fails before such a section, `Some(None)` where the text holds
/// none, and `Some(Some(der))` with the key's DER bytes otherwise.
pub uninterp spec fn pem_first_pkcs8_key(pem: Seq<u8>) -> Option<Option<Seq<u8>>>;

/// `rustls_pemfile::certs` over the bytes of `pem`, collected: the DER
/// bytes of every certificate section in order, or `None` at the first
/// section that cannot be read. Claimed: the result is `pem_certificates`
/// of the bytes; what the PEM grammar accepts is not stated.
#[verifier::external_body]
fn read_certificates(pem: &[u8]) -> (r: Option<Vec<Vec<u8>>>)
    ensures
        match r {
            Some(v) => pem_certificates(pem@) == Some(v.deep_view()),
            None => pem_certificates(pem@) is None,
        },
{
    let mut rd: &[u8] = pem;
    let items = rustls_pemfile::certs(&mut rd).collect::<Result<Vec<_>, _>>().ok()?;
    Some(items.iter().map(|c| c.as_ref().to_vec()).collect())
}

/// The first item of `rustls_pemfile::pkcs8_private_keys` over the bytes of
/// `pem`: `None` for an error, `Some(None)` where there is no item, and the
/// key's DER bytes otherwise. Claimed: the result is `pem_first_pkcs8_key`
/// of the bytes; what the PEM grammar accepts is not stated.
#[verifier::external_body]
fn read_first_pkcs8_key(pem: &[u8]) -> (r: Option<Option<Vec<u8>>>)
    ensures
        match r {
            Some(Some(k)) => pem_first_pkcs8_key(pem@) == Some(Some(k@)),
            Some(None) => pem_first_pkcs8_key(pem@) == Some(None::<Seq<u8>>),
            None => pem_first_pkcs8_key(pem@) is None,
        },
{
    let mut rd: &[u8] = pem;
    let first = rustls_pemfile::pkcs8_private_keys(&mut rd).next();
    match first {
        Some(Ok(key)) => Some(Some(key.secret_pkcs8_der().to_vec())),
        Some(Err(_)) => None,
        None => Some(None),
    }
}

/// Why the TLS material could not be had.
#[derive(Debug, PartialEq, Eq)]
pub enum TlsError {
    /// The certificate file does not read as PEM certificates.
    Certificates,
    /// The key file fails to read before its first PKCS#8 key.
    Key,
    /// The key file holds no PKCS#8 private key.
    NoKey,
}

/// The certificates of the certificate file's PEM text, in order, and the
/// first PKCS#8 key of the key file's: the certificates are read first, and
/// an error there is the result; then the first key, or the error met
/// before it, or `NoKey` where there is none.
pub fn tls_material(cert_pem: &[u8], key_pem: &[u8]) -> (r: Result<(Vec<Vec<u8>>, Vec<u8>), TlsError>)
    ensures
        match pem_certificates(cert_pem@) {
            None => r == Err::<(Vec<Vec<u8>>, Vec<u8>), TlsError>(TlsError::Certificates),
            Some(cs) => match pem_first_pkcs8_key(key_pem@) {
                None => r == Err::<(Vec<Vec<u8>>, Vec<u8>), TlsError>(TlsError::Key),
                Some(None) => r == Err::<(Vec<Vec<u8>>, Vec<u8>), TlsError>(TlsError::NoKey),
                Some(Some(k)) => r matches Ok((certs, key)) && certs.deep_view() == cs && key@ == k,
            },
        },
{
    let certs = match read_certificates(cert_pem) {
        Some(certs) => certs,
        None => return Err(TlsError::Certificates),
    };
    match read_first_pkcs8_key(key_pem) {
        Some(Some(key)) => Ok((certs, key)),
        Some(None) => Err(TlsError::NoKey),
        None => Err(TlsError::Key),
    }
}

} // verus!
