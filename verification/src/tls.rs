//! The TLS options of the local server: whether a secure configuration was
//! asked for, and which files it is built from.  Reading and parsing the
//! certificate and key files is the surrounding tooling's.

use vstd::prelude::*;

verus! {

/// Errors raised while building the server's TLS configuration.
#[derive(Debug)]
pub enum TlsError {
    MissingTlsCert,
    MissingTlsKey,
    InvalidTlsFile(String, String),
    FailedToParseTlsKey(String),
    FailedToParseServerConfig(String),
}

/// The TLS flags of the local server: certificate, key and optional CA
/// bundle, each a path.
pub struct TlsOptions {
    pub tls_cert: Option<String>,
    pub tls_key: Option<String>,
    pub tls_ca: Option<String>,
}

impl TlsOptions {
    /// A secure server was asked for: both a certificate and a key were
    /// given.
    pub fn is_secure(&self) -> (r: bool)
        ensures
            r == (self.tls_cert is Some && self.tls_key is Some),
    {
        self.tls_cert.is_some() && self.tls_key.is_some()
    }

    /// The files a server configuration is built from: certificate path,
    /// key path, and the CA bundle when one was given.  Nothing when no
    /// secure server was asked for — an insecure server is not an error.
    pub fn server_config_paths(&self) -> (r: Option<(String, String, Option<String>)>)
        ensures
            !(self.tls_cert is Some && self.tls_key is Some) ==> r is None,
            self.tls_cert is Some && self.tls_key is Some ==> (r matches Some(p) && Some(p.0)
                == self.tls_cert && Some(p.1) == self.tls_key && p.2 == self.tls_ca),
    {
        match (&self.tls_cert, &self.tls_key) {
            (Some(cert), Some(key)) => {
                let ca = match &self.tls_ca {
                    Some(c) => Some(c.clone()),
                    None => None,
                };
                Some((cert.clone(), key.clone(), ca))
            },
            _ => None,
        }
    }
}

} // verus!
