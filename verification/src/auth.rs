use vstd::prelude::*;

verus! {

/// A certificate file that vouches for the server.
#[derive(Debug, PartialEq, Eq)]
pub struct ClientCertificate {
    pub cert_file: String,
}

impl ClientCertificate {
    /// The certificate stored at `path`.
    pub fn new(path: &str) -> (certificate: Self)
        ensures
            certificate.cert_file@ == path@,
    {
        ClientCertificate { cert_file: path.to_owned() }
    }
}

impl Clone for ClientCertificate {
    fn clone(&self) -> (res: Self)
        ensures
            res.cert_file@ == self.cert_file@,
    {
        ClientCertificate { cert_file: self.cert_file.clone() }
    }
}

/// How the transport checks the server's identity.
#[derive(Debug, PartialEq, Eq)]
pub enum ConnectionTLSConfig {
    /// The platform's trust store decides.
    SystemDefault,
    /// The given certificate decides.
    ClientCACertificate(ClientCertificate),
    /// Nothing is checked.
    NoSSLValidation,
}

/// Mathematical model of a [`ConnectionTLSConfig`].
pub enum TlsView {
    SystemDefault,
    ClientCACertificate(Seq<char>),
    NoSSLValidation,
}

impl View for ConnectionTLSConfig {
    type V = TlsView;

    open spec fn view(&self) -> TlsView {
        match self {
            ConnectionTLSConfig::SystemDefault => TlsView::SystemDefault,
            ConnectionTLSConfig::ClientCACertificate(certificate) => TlsView::ClientCACertificate(
                certificate.cert_file@,
            ),
            ConnectionTLSConfig::NoSSLValidation => TlsView::NoSSLValidation,
        }
    }
}

impl Clone for ConnectionTLSConfig {
    fn clone(&self) -> (res: Self)
        ensures
            res@ == self@,
    {
        match self {
            ConnectionTLSConfig::SystemDefault => ConnectionTLSConfig::SystemDefault,
            ConnectionTLSConfig::ClientCACertificate(certificate) => {
                ConnectionTLSConfig::ClientCACertificate(certificate.clone())
            },
            ConnectionTLSConfig::NoSSLValidation => ConnectionTLSConfig::NoSSLValidation,
        }
    }
}

} // verus!
