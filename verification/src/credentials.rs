//! Choice of the TLS certificate and private key from the PEM files found,
//! and the QUIC transport settings of the relay.

use vstd::prelude::*;

verus! {

/// Why no certificate and key could be taken from PEM files.
#[derive(Debug, PartialEq, Eq, Structural)]
pub enum CredentialError {
    /// The certificate file or the key file is missing at every candidate path.
    FilesNotFound,
    /// The certificate file holds no certificate.
    NoCertificates,
    /// The key file holds neither a PKCS#8 nor an RSA private key.
    NoPrivateKeys,
    /// A PEM file could not be parsed (a bad section start or bad base64).
    MalformedPem,
}

/// The DER certificates that `rustls_pemfile::certs` finds in the PEM text
/// `pem`, in order; `None` where it reports the text as malformed.
pub uninterp spec fn spec_pem_certs(pem: Seq<u8>) -> Option<Seq<Seq<u8>>>;

/// The DER keys that `rustls_pemfile::pkcs8_private_keys` finds in `pem`, in
/// order; `None` where it reports the text as malformed.
pub uninterp spec fn spec_pem_pkcs8_keys(pem: Seq<u8>) -> Option<Seq<Seq<u8>>>;

/// The DER keys that `rustls_pemfile::rsa_private_keys` finds in `pem`, in
/// order; `None` where it reports the text as malformed.
pub uninterp spec fn spec_pem_rsa_keys(pem: Seq<u8>) -> Option<Seq<Seq<u8>>>;

/// `rustls_pemfile::certs` over the bytes of a PEM file. The crate reads the
/// sections one by one and keeps the certificates; its result depends on the
/// bytes alone, and it reports malformed text as an error.
#[verifier::external_body]
fn pem_certs(pem: &[u8]) -> (r: Option<Vec<Vec<u8>>>)
    ensures
        r is Some <==> spec_pem_certs(pem@) is Some,
        r matches Some(v) ==> v.deep_view() == spec_pem_certs(pem@).unwrap(),
{
    rustls_pemfile::certs(&mut &pem[..]).ok()
}

/// `rustls_pemfile::pkcs8_private_keys` over the bytes of a PEM file, as
/// `pem_certs` does for certificates.
#[verifier::external_body]
fn pem_pkcs8_keys(pem: &[u8]) -> (r: Option<Vec<Vec<u8>>>)
    ensures
        r is Some <==> spec_pem_pkcs8_keys(pem@) is Some,
        r matches Some(v) ==> v.deep_view() == spec_pem_pkcs8_keys(pem@).unwrap(),
{
    rustls_pemfile::pkcs8_private_keys(&mut &pem[..]).ok()
}

/// `rustls_pemfile::rsa_private_keys` over the bytes of a PEM file, as
/// `pem_certs` does for certificates.
#[verifier::external_body]
fn pem_rsa_keys(pem: &[u8]) -> (r: Option<Vec<Vec<u8>>>)
    ensures
        r is Some <==> spec_pem_rsa_keys(pem@) is Some,
        r matches Some(v) ==> v.deep_view() == spec_pem_rsa_keys(pem@).unwrap(),
{
    rustls_pemfile::rsa_private_keys(&mut &pem[..]).ok()
}

/// What the certificate file `cert_pem` and the key file `key_pem` yield:
/// the first certificate, with the first PKCS#8 key, or failing that the
/// first RSA key (the RSA keys are only looked for when there is no PKCS#8
/// key).
pub open spec fn spec_credentials_from_pem(cert_pem: Seq<u8>, key_pem: Seq<u8>) -> Result<
    (Seq<u8>, Seq<u8>),
    CredentialError,
> {
    match spec_pem_certs(cert_pem) {
        None => Err(CredentialError::MalformedPem),
        Some(certs) => if certs.len() == 0 {
            Err(CredentialError::NoCertificates)
        } else {
            match spec_pem_pkcs8_keys(key_pem) {
                None => Err(CredentialError::MalformedPem),
                Some(pkcs8) => if pkcs8.len() > 0 {
                    Ok((certs[0], pkcs8[0]))
                } else {
                    match spec_pem_rsa_keys(key_pem) {
                        None => Err(CredentialError::MalformedPem),
                        Some(rsa) => if rsa.len() > 0 {
                            Ok((certs[0], rsa[0]))
                        } else {
                            Err(CredentialError::NoPrivateKeys)
                        },
                    }
                },
            }
        },
    }
}

/// Parses the certificate and key files and picks the credentials, as
/// `spec_credentials_from_pem` says.
pub fn credentials_from_pem(cert_pem: &[u8], key_pem: &[u8]) -> (r: Result<
    (Vec<u8>, Vec<u8>),
    CredentialError,
>)
    ensures
        match (r, spec_credentials_from_pem(cert_pem@, key_pem@)) {
            (Ok((c, k)), Ok((sc, sk))) => c@ == sc && k@ == sk,
            (Err(e), Err(se)) => e == se,
            _ => false,
        },
{
    let certs = match pem_certs(cert_pem) {
        Some(certs) => certs,
        None => {
            return Err(CredentialError::MalformedPem);
        },
    };
    let cert = match select_certificate(&certs) {
        Ok(c) => c,
        Err(e) => {
            return Err(e);
        },
    };
    let pkcs8 = match pem_pkcs8_keys(key_pem) {
        Some(keys) => keys,
        None => {
            return Err(CredentialError::MalformedPem);
        },
    };
    let key = if pkcs8.len() > 0 {
        select_private_key(&pkcs8, None)
    } else {
        match pem_rsa_keys(key_pem) {
            Some(rsa) => select_private_key(&pkcs8, Some(&rsa)),
            None => {
                return Err(CredentialError::MalformedPem);
            },
        }
    };
    match key {
        Ok(k) => Ok((cert, k)),
        Err(e) => Err(e),
    }
}

/// Index of the first candidate that is present.
pub fn first_present(present: &[bool]) -> (found: Option<usize>)
    ensures
        found matches Some(i) ==> i < present@.len() && present@[i as int] && forall|j: int|
            0 <= j < i ==> !present@[j],
        found is None ==> forall|j: int| 0 <= j < present@.len() ==> !present@[j],
{
    let n = present.len();
    for i in 0..n
        invariant
            n == present@.len(),
            forall|j: int| 0 <= j < i ==> !present@[j],
    {
        if present[i] {
            return Some(i);
        }
    }
    None
}

/// The first certificate of the certificate file.
pub fn select_certificate(certs: &Vec<Vec<u8>>) -> (r: Result<Vec<u8>, CredentialError>)
    ensures
        certs@.len() == 0 ==> r == Err::<Vec<u8>, CredentialError>(CredentialError::NoCertificates),
        certs@.len() > 0 ==> (r matches Ok(c) && c@ == certs@[0]@),
{
    if certs.len() == 0 {
        return Err(CredentialError::NoCertificates);
    }
    Ok(copy_bytes(&certs[0]))
}

/// The first PKCS#8 key of the key file, else its first RSA key. The RSA
/// keys are only read when there is no PKCS#8 key, so `rsa_keys` is `None`
/// exactly then, and must then be given.
pub fn select_private_key(pkcs8_keys: &Vec<Vec<u8>>, rsa_keys: Option<&Vec<Vec<u8>>>) -> (r: Result<
    Vec<u8>,
    CredentialError,
>)
    requires
        pkcs8_keys@.len() == 0 ==> rsa_keys is Some,
    ensures
        pkcs8_keys@.len() > 0 ==> (r matches Ok(k) && k@ == pkcs8_keys@[0]@),
        pkcs8_keys@.len() == 0 ==> match rsa_keys {
            Some(rsa) => if rsa@.len() > 0 {
                (r matches Ok(k) && k@ == rsa@[0]@)
            } else {
                r == Err::<Vec<u8>, CredentialError>(CredentialError::NoPrivateKeys)
            },
            None => false,
        },
{
    if pkcs8_keys.len() > 0 {
        return Ok(copy_bytes(&pkcs8_keys[0]));
    }
    match rsa_keys {
        Some(rsa) => {
            if rsa.len() == 0 {
                Err(CredentialError::NoPrivateKeys)
            } else {
                Ok(copy_bytes(&rsa[0]))
            }
        },
        None => Err(CredentialError::NoPrivateKeys),
    }
}

/// A copy of `src`.
fn copy_bytes(src: &Vec<u8>) -> (out: Vec<u8>)
    ensures
        out@ == src@,
{
    let mut out: Vec<u8> = Vec::new();
    let n = src.len();
    for i in 0..n
        invariant
            n == src@.len(),
            out@ == src@.take(i as int),
    {
        out.push(src[i]);
        assert(src@.take(i + 1) =~= src@.take(i as int).push(src@[i as int]));
    }
    assert(src@.take(n as int) =~= src@);
    out
}

/// Connection-wide receive window of the QUIC transport, in bytes.
pub const RECEIVE_WINDOW: u32 = 4194304;

/// Per-stream receive window of the QUIC transport, in bytes.
pub const STREAM_RECEIVE_WINDOW: u32 = 1048576;

/// Send window of the QUIC transport, in bytes.
pub const SEND_WINDOW: u64 = 4194304;

/// Idle timeout of a QUIC connection, in seconds.
pub const MAX_IDLE_TIMEOUT_SECS: u64 = 30;

/// Most unidirectional streams a peer may have open at once.
pub const MAX_CONCURRENT_UNI_STREAMS: u32 = 50;

/// Most bidirectional streams a peer may have open at once.
pub const MAX_CONCURRENT_BIDI_STREAMS: u32 = 25;

/// The ALPN protocols the QUIC server offers, in order of preference:
/// "moq-smart", "h3", "hq-interop".
pub open spec fn spec_alpn_protocols() -> Seq<Seq<u8>> {
    seq![
        seq![109u8, 111, 113, 45, 115, 109, 97, 114, 116],
        seq![104u8, 51],
        seq![104u8, 113, 45, 105, 110, 116, 101, 114, 111, 112],
    ]
}

/// The ALPN protocols the QUIC server offers.
pub fn smart_alpn_protocols() -> (protocols: Vec<Vec<u8>>)
    ensures
        protocols@.len() == 3,
        forall|i: int| 0 <= i < 3 ==> #[trigger] protocols@[i]@ == spec_alpn_protocols()[i],
{
    let moq_smart: Vec<u8> = vec![109u8, 111, 113, 45, 115, 109, 97, 114, 116];
    let h3: Vec<u8> = vec![104u8, 51];
    let hq_interop: Vec<u8> = vec![104u8, 113, 45, 105, 110, 116, 101, 114, 111, 112];
    let protocols = vec![moq_smart, h3, hq_interop];
    assert(protocols@[0]@ =~= spec_alpn_protocols()[0]);
    assert(protocols@[1]@ =~= spec_alpn_protocols()[1]);
    assert(protocols@[2]@ =~= spec_alpn_protocols()[2]);
    protocols
}

} // verus!
