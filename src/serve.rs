//! The serve configuration and what `run` and `start` decide from it before
//! the listener opens.
use vstd::prelude::*;
use crate::error::ThunderError;
use crate::manifest::{InstallConfig, ManifestStore, ManifestView, read_outcome};

verus! {

/// The address part of a listening socket address.
#[derive(Clone, Copy, Debug, PartialEq, Eq, Structural)]
pub enum BindIp {
    /// An IPv4 address, its four octets read as one big-endian number.
    V4(u32),
    /// An IPv6 address, its sixteen octets read as one big-endian number.
    V6(u128),
}

/// A TCP socket address to listen on.
#[derive(Clone, Copy, Debug, PartialEq, Eq, Structural)]
pub struct BindAddr {
    pub ip: BindIp,
    pub port: u16,
}

impl BindAddr {
    /// `0.0.0.0:5055`.
    pub fn default_bind() -> (r: BindAddr)
        ensures
            r.ip == BindIp::V4(0),
            r.port == 5055,
    {
        BindAddr { ip: BindIp::V4(0), port: 5055 }
    }

    /// Whether only a privileged process may bind the port.
    pub fn is_privileged(&self) -> (r: bool)
        ensures
            r == (self.port < 1024),
    {
        self.port < 1024
    }
}

/// The options of `run` and `start`.
pub struct ServeConfig {
    pub debug: bool,
    pub auth_password: Option<String>,
    pub bind: BindAddr,
    pub tls_cert: Option<String>,
    pub tls_key: Option<String>,
}

/// The certificate and key files of a TLS listener.
pub struct TlsFiles {
    pub cert: String,
    pub key: String,
}

/// Whether exactly one of the two TLS files is given.
pub open spec fn tls_half_given(c: &ServeConfig) -> bool {
    (c.tls_cert is Some) != (c.tls_key is Some)
}

impl ServeConfig {
    /// The TLS files to listen with: both or none may be given, and one alone
    /// is `TlsMisconfigured`.
    pub fn tls(&self) -> (r: Result<Option<TlsFiles>, ThunderError>)
        ensures
            r is Err <==> tls_half_given(self),
            r is Err ==> r == Err::<Option<TlsFiles>, ThunderError>(ThunderError::TlsMisconfigured),
            r is Ok ==> (r->Ok_0 is Some <==> self.tls_cert is Some),
            r matches Ok(Some(f)) ==> f.cert@ == self.tls_cert->Some_0@ && f.key@
                == self.tls_key->Some_0@,
    {
        match (&self.tls_cert, &self.tls_key) {
            (Some(c), Some(k)) => Ok(Some(TlsFiles { cert: c.clone(), key: k.clone() })),
            (None, None) => Ok(None),
            _ => Err(ThunderError::TlsMisconfigured),
        }
    }
}

/// What the front end runs with: the manifest, the TLS files if any, and
/// whether to drop to the manifest's ids once the socket is bound.
pub struct ServePlan {
    pub manifest: InstallConfig,
    pub tls: Option<TlsFiles>,
    pub drop_privileges: bool,
}

/// What `run` and `start` get from the options `config` and the manifest
/// file `f`: `TlsMisconfigured` when one TLS file comes without the other,
/// else whatever reading the manifest gives.
pub open spec fn serve_outcome(config: &ServeConfig, f: Option<Seq<char>>) -> Result<ManifestView, ThunderError> {
    if tls_half_given(config) {
        Err(ThunderError::TlsMisconfigured)
    } else {
        read_outcome(f)
    }
}

/// Checks the options, then reads the manifest from `store`.
pub fn plan_serve(config: &ServeConfig, store: &ManifestStore) -> (r: Result<ServePlan, ThunderError>)
    ensures
        match serve_outcome(config, store@) {
            Ok(m) => r is Ok && r->Ok_0.manifest@ == m && (r->Ok_0.tls is Some <==> config.tls_cert is Some)
                && (r->Ok_0.tls matches Some(f) ==> f.cert@ == config.tls_cert->Some_0@ && f.key@
                == config.tls_key->Some_0@) && r->Ok_0.drop_privileges == (config.bind.port < 1024),
            Err(e) => r == Err::<ServePlan, ThunderError>(e),
        },
{
    let tls = match config.tls() {
        Ok(t) => t,
        Err(e) => {
            return Err(e);
        },
    };
    let manifest = match InstallConfig::read_from_file(store) {
        Ok(m) => m,
        Err(e) => {
            return Err(e);
        },
    };
    Ok(ServePlan { manifest, tls, drop_privileges: config.bind.is_privileged() })
}

/// With one TLS file and not the other, `run` fails as `TlsMisconfigured`,
/// whatever the manifest file holds.
pub proof fn lemma_half_tls_refused(config: &ServeConfig, f: Option<Seq<char>>)
    requires
        tls_half_given(config),
    ensures
        serve_outcome(config, f) == Err::<ManifestView, ThunderError>(ThunderError::TlsMisconfigured),
{
}

} // verus!
